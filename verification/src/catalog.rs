use vstd::prelude::*;
use crate::Millis;
use crate::bytes::{all_ws, trim_spec, is_u64_dec, digits_val, dec_body};
use crate::config::Compression;
use crate::errors::{ParseError, ResourceError};
use crate::time_index::Transition;

verus! {

/// A child node of a transition element, as the XML decoder hands it
/// over: either a text node carrying the scene payload, or anything else.
pub struct XmlChild {
    pub text_node: bool,
    pub text: Vec<u8>,
}

/// One attribute as the decoder hands it over: whether it carries a
/// namespace, its local name, and its value. The schema's attributes are
/// plain names, so a namespaced attribute never matches a lookup.
pub struct XmlAttr {
    pub namespaced: bool,
    pub name: Vec<u8>,
    pub value: Vec<u8>,
}

/// A direct child of the document root, reduced to plain values: its
/// classification, tag name, text content, attributes in document order,
/// and its own children.
pub struct XmlNode {
    pub element: bool,
    pub text_node: bool,
    pub tag: Vec<u8>,
    pub text: Vec<u8>,
    pub attrs: Vec<XmlAttr>,
    pub children: Vec<XmlChild>,
}

/// A decoded overlay document: the root tag and the root's children.
pub struct XmlDoc {
    pub root_tag: Vec<u8>,
    pub nodes: Vec<XmlNode>,
}

/// The bytes of `"transitions"`.
pub open spec fn lit_transitions() -> Seq<u8> {
    seq![116u8, 114, 97, 110, 115, 105, 116, 105, 111, 110, 115]
}

/// The bytes of `"transition"`.
pub open spec fn lit_transition() -> Seq<u8> {
    seq![116u8, 114, 97, 110, 115, 105, 116, 105, 111, 110]
}

/// The bytes of `"time-in"`.
pub open spec fn lit_time_in() -> Seq<u8> {
    seq![116u8, 105, 109, 101, 45, 105, 110]
}

/// The bytes of `"time-out"`.
pub open spec fn lit_time_out() -> Seq<u8> {
    seq![116u8, 105, 109, 101, 45, 111, 117, 116]
}

/// The bytes of `"index"`.
pub open spec fn lit_index() -> Seq<u8> {
    seq![105u8, 110, 100, 101, 120]
}

/// The first non-namespaced attribute with the given name, front to back.
pub open spec fn attr_lookup(attrs: Seq<XmlAttr>, name: Seq<u8>) -> Option<Seq<u8>>
    decreases attrs.len(),
{
    if attrs.len() == 0 {
        None
    } else if !attrs[0].namespaced && attrs[0].name@ == name {
        Some(attrs[0].value@)
    } else {
        attr_lookup(attrs.drop_first(), name)
    }
}

/// One catalog entry as the validator states it: start, optional end,
/// draw index, trimmed scene payload.
pub type EntrySpec = (u64, Option<u64>, int, Seq<u8>);

/// What a numeric attribute contributes: absent, a value, or the error.
pub open spec fn num_attr(attrs: Seq<XmlAttr>, name: Seq<u8>) -> Result<Option<u64>, ParseError> {
    match attr_lookup(attrs, name) {
        None => Ok(None),
        Some(v) => if is_u64_dec(v) {
            Ok(Some(digits_val(dec_body(v)) as u64))
        } else {
            Err(ParseError::InvalidNumber)
        },
    }
}

pub open spec fn index_attr(attrs: Seq<XmlAttr>, pos: int) -> Result<int, ParseError> {
    match attr_lookup(attrs, lit_index()) {
        None => Ok(pos),
        Some(v) => if is_u64_dec(v) && digits_val(dec_body(v)) <= usize::MAX {
            Ok(digits_val(dec_body(v)) as int)
        } else {
            Err(ParseError::InvalidNumber)
        },
    }
}

/// The scene payload of a transition element: its single text child,
/// trimmed; each way the payload can be malformed has its own error.
pub open spec fn scene_payload(children: Seq<XmlChild>) -> Result<Seq<u8>, ParseError> {
    if children.len() == 0 {
        Err(ParseError::MissingScene)
    } else if !children[0].text_node {
        Err(ParseError::UnexpectedSceneChild)
    } else if children.len() > 1 {
        Err(ParseError::MultipleSceneChildren)
    } else if all_ws(children[0].text@) {
        Err(ParseError::EmptyScene)
    } else {
        Ok(trim_spec(children[0].text@))
    }
}

/// What one transition element means at document position `pos`:
/// `time-in` is required and numeric, `time-out` and `index` optional
/// and numeric (`index` defaults to the document position), and the
/// element holds exactly one non-blank text child, the scene payload.
/// A malformed number is reported before a missing `time-in`, exactly
/// in attribute order.
pub open spec fn transition_spec(node: XmlNode, pos: int) -> Result<EntrySpec, ParseError> {
    match num_attr(node.attrs@, lit_time_in()) {
        Err(e) => Err(e),
        Ok(None) => Err(ParseError::MissingTimeIn),
        Ok(Some(tin)) => match num_attr(node.attrs@, lit_time_out()) {
            Err(e) => Err(e),
            Ok(tout) => match index_attr(node.attrs@, pos) {
                Err(e) => Err(e),
                Ok(idx) => match scene_payload(node.children@) {
                    Err(e) => Err(e),
                    Ok(payload) => Ok((tin, tout, idx, payload)),
                },
            },
        },
    }
}

/// What the root's children list means, walked in document order from
/// position `pos`: blank text between elements is skipped but still
/// counts one position, a `transition` element contributes one entry,
/// and anything else stops the walk with its error.
pub open spec fn nodes_spec(nodes: Seq<XmlNode>, pos: int) -> Result<Seq<EntrySpec>, ParseError>
    decreases nodes.len(),
{
    if nodes.len() == 0 {
        Ok(Seq::empty())
    } else {
        let n = nodes[0];
        if n.text_node {
            if all_ws(n.text@) {
                nodes_spec(nodes.drop_first(), pos + 1)
            } else {
                Err(ParseError::UnexpectedText)
            }
        } else if n.element {
            if n.tag@ != lit_transition() {
                Err(ParseError::UnexpectedElement)
            } else {
                match transition_spec(n, pos) {
                    Err(e) => Err(e),
                    Ok(t) => match nodes_spec(nodes.drop_first(), pos + 1) {
                        Err(e) => Err(e),
                        Ok(rest) => Ok(seq![t] + rest),
                    },
                }
            }
        } else {
            Err(ParseError::UnexpectedNode)
        }
    }
}

/// What a whole decoded document means: the root must be the
/// `transitions` container, and its children validate in order.
pub open spec fn doc_entries_spec(doc: XmlDoc) -> Result<Seq<EntrySpec>, ParseError> {
    if doc.root_tag@ != lit_transitions() {
        Err(ParseError::UnexpectedRoot)
    } else {
        nodes_spec(doc.nodes@, 0)
    }
}

/// The entry tuples a built transition list stands for.
pub open spec fn entries_of(s: Seq<Transition<Vec<u8>>>) -> Seq<EntrySpec> {
    s.map_values(
        |t: Transition<Vec<u8>>| (t.time_in, t.time_out, t.index as int, t.scene@),
    )
}

pub open spec fn join_entries(done: Seq<EntrySpec>, rest: Result<Seq<EntrySpec>, ParseError>) -> Result<
    Seq<EntrySpec>,
    ParseError,
> {
    match rest {
        Ok(r) => Ok(done + r),
        Err(e) => Err(e),
    }
}

fn bytes_eq(a: &[u8], b: &[u8]) -> (r: bool)
    ensures
        r == (a@ == b@),
{
    if a.len() != b.len() {
        proof {
            assert(a@.len() != b@.len());
        }
        return false;
    }
    let mut i: usize = 0;
    while i < a.len()
        invariant
            i <= a@.len(),
            a@.len() == b@.len(),
            forall|j: int| 0 <= j < i ==> a@[j] == b@[j],
        decreases a@.len() - i,
    {
        if a[i] != b[i] {
            return false;
        }
        i += 1;
    }
    proof {
        assert(a@ =~= b@);
    }
    true
}

/// Finds the first non-namespaced attribute with the given name.
fn find_attr<'a>(attrs: &'a Vec<XmlAttr>, name: &Vec<u8>) -> (r: Option<&'a Vec<u8>>)
    ensures
        r matches Some(v) ==> attr_lookup(attrs@, name@) == Some(v@),
        r is None ==> attr_lookup(attrs@, name@) is None,
{
    let mut i: usize = 0;
    proof {
        assert(attrs@.skip(0) =~= attrs@);
    }
    while i < attrs.len()
        invariant
            i <= attrs@.len(),
            attr_lookup(attrs@, name@) == attr_lookup(attrs@.skip(i as int), name@),
        decreases attrs@.len() - i,
    {
        proof {
            assert(attrs@.skip(i as int)[0] == attrs@[i as int]);
            assert(attrs@.skip(i as int).drop_first() =~= attrs@.skip(i + 1));
        }
        if !attrs[i].namespaced && bytes_eq(attrs[i].name.as_slice(), name.as_slice()) {
            return Some(&attrs[i].value);
        }
        i += 1;
    }
    proof {
        assert(attrs@.skip(i as int) =~= Seq::<XmlAttr>::empty());
    }
    None
}

fn vec_lit_transitions() -> (r: Vec<u8>)
    ensures
        r@ == lit_transitions(),
{
    let v = vec![116u8, 114, 97, 110, 115, 105, 116, 105, 111, 110, 115];
    proof {
        assert(v@ =~= lit_transitions());
    }
    v
}

fn vec_lit_transition() -> (r: Vec<u8>)
    ensures
        r@ == lit_transition(),
{
    let v = vec![116u8, 114, 97, 110, 115, 105, 116, 105, 111, 110];
    proof {
        assert(v@ =~= lit_transition());
    }
    v
}

fn vec_lit_time_in() -> (r: Vec<u8>)
    ensures
        r@ == lit_time_in(),
{
    let v = vec![116u8, 105, 109, 101, 45, 105, 110];
    proof {
        assert(v@ =~= lit_time_in());
    }
    v
}

fn vec_lit_time_out() -> (r: Vec<u8>)
    ensures
        r@ == lit_time_out(),
{
    let v = vec![116u8, 105, 109, 101, 45, 111, 117, 116];
    proof {
        assert(v@ =~= lit_time_out());
    }
    v
}

fn vec_lit_index() -> (r: Vec<u8>)
    ensures
        r@ == lit_index(),
{
    let v = vec![105u8, 110, 100, 101, 120];
    proof {
        assert(v@ =~= lit_index());
    }
    v
}

/// Validates one transition element at document position `pos`.
fn parse_transition_node(node: &XmlNode, pos: usize) -> (r: Result<Transition<Vec<u8>>, ParseError>)
    ensures
        r matches Ok(t) ==> transition_spec(*node, pos as int) == Ok::<EntrySpec, ParseError>(
            (t.time_in, t.time_out, t.index as int, t.scene@),
        ),
        r matches Err(e) ==> transition_spec(*node, pos as int) == Err::<EntrySpec, ParseError>(e),
{
    let time_in: Millis;
    match find_attr(&node.attrs, &vec_lit_time_in()) {
        None => {
            return Err(ParseError::MissingTimeIn);
        },
        Some(v) => {
            match crate::bytes::parse_u64_dec(v.as_slice()) {
                None => {
                    return Err(ParseError::InvalidNumber);
                },
                Some(t) => {
                    time_in = t;
                },
            }
        },
    }
    let time_out: Option<Millis>;
    match find_attr(&node.attrs, &vec_lit_time_out()) {
        None => {
            time_out = None;
        },
        Some(v) => {
            match crate::bytes::parse_u64_dec(v.as_slice()) {
                None => {
                    return Err(ParseError::InvalidNumber);
                },
                Some(t) => {
                    time_out = Some(t);
                },
            }
        },
    }
    let index: usize;
    match find_attr(&node.attrs, &vec_lit_index()) {
        None => {
            index = pos;
        },
        Some(v) => {
            match crate::bytes::parse_usize_dec(v.as_slice()) {
                None => {
                    return Err(ParseError::InvalidNumber);
                },
                Some(t) => {
                    index = t;
                },
            }
        },
    }
    if node.children.len() == 0 {
        return Err(ParseError::MissingScene);
    }
    if !node.children[0].text_node {
        return Err(ParseError::UnexpectedSceneChild);
    }
    if node.children.len() > 1 {
        return Err(ParseError::MultipleSceneChildren);
    }
    if crate::bytes::is_blank(node.children[0].text.as_slice()) {
        return Err(ParseError::EmptyScene);
    }
    let payload = crate::bytes::trim_bytes(node.children[0].text.as_slice());
    Ok(Transition { time_in, time_out, index, scene: payload })
}

/// Validates a decoded overlay document into the finalized entry list:
/// exactly the entries `doc_entries_spec` names, in document order, or
/// the first error that specification names.
pub fn build_transitions(doc: &XmlDoc) -> (r: Result<Vec<Transition<Vec<u8>>>, ParseError>)
    ensures
        r matches Err(e) ==> doc_entries_spec(*doc) == Err::<Seq<EntrySpec>, ParseError>(e),
        r matches Ok(v) ==> doc_entries_spec(*doc) == Ok::<Seq<EntrySpec>, ParseError>(
            entries_of(v@),
        ),
{
    if !bytes_eq(doc.root_tag.as_slice(), vec_lit_transitions().as_slice()) {
        return Err(ParseError::UnexpectedRoot);
    }
    let mut out: Vec<Transition<Vec<u8>>> = Vec::new();
    let mut i: usize = 0;
    proof {
        assert(entries_of(out@) =~= Seq::<EntrySpec>::empty());
        assert(doc.nodes@.skip(0) =~= doc.nodes@);
        assert(nodes_spec(doc.nodes@, 0) == join_entries(
            entries_of(out@),
            nodes_spec(doc.nodes@.skip(0), 0),
        ));
    }
    while i < doc.nodes.len()
        invariant
            i <= doc.nodes@.len(),
            doc.root_tag@ == lit_transitions(),
            nodes_spec(doc.nodes@, 0) == join_entries(
                entries_of(out@),
                nodes_spec(doc.nodes@.skip(i as int), i as int),
            ),
        decreases doc.nodes@.len() - i,
    {
        let node = &doc.nodes[i];
        proof {
            assert(doc.nodes@.skip(i as int)[0] == doc.nodes@[i as int]);
            assert(doc.nodes@.skip(i as int).drop_first() =~= doc.nodes@.skip(i + 1));
        }
        if node.text_node {
            if !crate::bytes::is_blank(node.text.as_slice()) {
                return Err(ParseError::UnexpectedText);
            }
        } else if node.element {
            if !bytes_eq(node.tag.as_slice(), vec_lit_transition().as_slice()) {
                return Err(ParseError::UnexpectedElement);
            }
            let ghost out_before = out@;
            match parse_transition_node(node, i) {
                Err(e) => {
                    return Err(e);
                },
                Ok(t) => {
                    let ghost tuple = (t.time_in, t.time_out, t.index as int, t.scene@);
                    out.push(t);
                    proof {
                        assert(entries_of(out@) =~= entries_of(out_before).push(tuple));
                        if nodes_spec(doc.nodes@.skip(i + 1), i + 1) is Ok {
                            let rest = nodes_spec(doc.nodes@.skip(i + 1), i + 1)->Ok_0;
                            assert(entries_of(out_before) + (seq![tuple] + rest) =~= entries_of(
                                out@,
                            ) + rest);
                        }
                    }
                },
            }
        } else {
            return Err(ParseError::UnexpectedNode);
        }
        i += 1;
    }
    proof {
        assert(doc.nodes@.skip(i as int) =~= Seq::<XmlNode>::empty());
        assert(nodes_spec(doc.nodes@.skip(i as int), i as int) == Ok::<Seq<EntrySpec>, ParseError>(
            Seq::empty(),
        ));
        assert(entries_of(out@) + Seq::<EntrySpec>::empty() =~= entries_of(out@));
    }
    Ok(out)
}

/// The result of gzip inflation on these exact bytes: the full plain
/// content, or nothing when the bytes are not a valid gzip stream.
/// Inflation is deterministic, a function of the bytes alone, so the
/// result can carry a name even though stating it in full would mean
/// writing out the whole format.
pub uninterp spec fn gunzip_of(s: Seq<u8>) -> Option<Seq<u8>>;

/// Relies on `flate2::read::GzDecoder` via `std::io::Read::read_to_end`:
/// inflates a gzip stream to its full plain content, or fails; the
/// outcome is the pure function `gunzip_of` of the input bytes.
#[verifier::external_body]
fn gunzip_raw(data: &[u8]) -> (r: Option<Vec<u8>>)
    ensures
        r matches Some(v) ==> gunzip_of(data@) == Some(v@),
        r is None ==> gunzip_of(data@) is None,
{
    let mut out = Vec::new();
    let mut dec = flate2::read::GzDecoder::new(data);
    match std::io::Read::read_to_end(&mut dec, &mut out) {
        Ok(_) => Some(out),
        Err(_) => None,
    }
}

/// Brings an overlay source to its plain bytes under the configured
/// compression: uncompressed input passes through unchanged; gzip input
/// yields exactly its inflation `gunzip_of`, and the decompression
/// resource error comes precisely when the bytes are no gzip stream.
pub fn decompress_source(compression: Compression, data: &[u8]) -> (r: Result<Vec<u8>, ResourceError>)
    ensures
        compression == Compression::Uncompressed ==> (r matches Ok(v) && v@ == data@),
        compression == Compression::Gzip ==> (r matches Ok(v) ==> gunzip_of(data@) == Some(v@)),
        compression == Compression::Gzip ==> ((r is Err) <==> gunzip_of(data@) is None),
        r matches Err(e) ==> compression == Compression::Gzip && e == ResourceError::Decompress,
{
    match compression {
        Compression::Uncompressed => {
            let mut out: Vec<u8> = Vec::new();
            out.extend_from_slice(data);
            proof {
                assert(out@ =~= data@);
            }
            Ok(out)
        },
        Compression::Gzip => {
            match gunzip_raw(data) {
                Some(v) => Ok(v),
                None => Err(ResourceError::Decompress),
            }
        },
    }
}

/// The result of XML decoding on these exact bytes: the document reduced
/// to plain records, or nothing when the text is not well-formed XML or
/// not UTF-8. Decoding is deterministic, a function of the bytes alone,
/// so the result can carry a name even though stating it in full would
/// mean writing out the whole format.
pub uninterp spec fn xml_doc_of(s: Seq<u8>) -> Option<XmlDoc>;

/// Relies on `roxmltree::Document::parse`: decodes an XML document and
/// reduces the root element and its children to plain records; `None` on
/// text that is not well-formed XML (or not UTF-8). The outcome is the
/// pure function `xml_doc_of` of the input bytes.
#[verifier::external_type_specification]
#[verifier::external_body]
pub struct ExXmlNode<'a, 'input: 'a>(roxmltree::Node<'a, 'input>);

#[verifier::external_body]
fn conv_child(g: roxmltree::Node) -> (r: XmlChild) {
    XmlChild { text_node: g.is_text(), text: g.text().unwrap_or("").as_bytes().to_vec() }
}

#[verifier::external_body]
fn conv_node(c: roxmltree::Node) -> (r: XmlNode) {
    XmlNode {
        element: c.is_element(),
        text_node: c.is_text(),
        tag: c.tag_name().name().as_bytes().to_vec(),
        text: c.text().unwrap_or("").as_bytes().to_vec(),
        attrs: c.attributes().map(|a| XmlAttr {
            namespaced: a.namespace().is_some(),
            name: a.name().as_bytes().to_vec(),
            value: a.value().as_bytes().to_vec(),
        }).collect(),
        children: c.children().map(conv_child).collect(),
    }
}

#[verifier::external_body]
fn decode_xml_raw(data: &[u8]) -> (r: Option<XmlDoc>)
    ensures
        r == xml_doc_of(data@),
{
    let text = std::str::from_utf8(data).ok()?;
    let d = roxmltree::Document::parse(text).ok()?;
    let rt = d.root_element();
    Some(XmlDoc {
        root_tag: rt.tag_name().name().as_bytes().to_vec(),
        nodes: rt.children().map(conv_node).collect(),
    })
}

/// Decodes overlay source text into the plain document records that
/// `build_transitions` validates: exactly `xml_doc_of` of the bytes, and
/// the malformed-document parse error precisely when the text is not a
/// well-formed document.
pub fn decode_xml(data: &[u8]) -> (r: Result<XmlDoc, ParseError>)
    ensures
        r matches Ok(d) ==> xml_doc_of(data@) == Some(d),
        (r is Err) <==> xml_doc_of(data@) is None,
        r matches Err(e) ==> e == ParseError::MalformedDocument,
{
    match decode_xml_raw(data) {
        Some(d) => Ok(d),
        None => Err(ParseError::MalformedDocument),
    }
}

} // verus!
