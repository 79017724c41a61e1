use vstd::prelude::*;
use vstd::string::StringSliceAdditionalSpecFns;
use crate::bytes::{all_ws, trim_spec};
use crate::errors::{ConfigError, DelegateMismatch};

verus! {

/// The option string a key/value property becomes: `-Dkey=value`.
pub open spec fn property_bytes(k: Seq<u8>, v: Seq<u8>) -> Seq<u8> {
    seq![45u8, 68u8] + k + seq![61u8] + v
}

/// Collects `-Dkey=value` option strings for the embedded runtime before
/// its virtual machine is created.
pub struct InitArgsBuilder {
    opts: Vec<Vec<u8>>,
}

impl Default for InitArgsBuilder {
    fn default() -> (r: Self)
        ensures
            r.options() == Seq::<Seq<u8>>::empty(),
    {
        let r = InitArgsBuilder { opts: Vec::new() };
        proof {
            assert(r.options() =~= Seq::<Seq<u8>>::empty());
        }
        r
    }
}

impl InitArgsBuilder {
    /// The option strings collected so far, in insertion order.
    pub closed spec fn options(self) -> Seq<Seq<u8>> {
        self.opts@.map_values(|o: Vec<u8>| o@)
    }

    /// A builder with no options yet.
    pub fn new() -> (r: Self)
        ensures
            r.options() == Seq::<Seq<u8>>::empty(),
    {
        Default::default()
    }

    /// Appends the system property `key=val` as the option `-Dkey=val`.
    pub fn property(&mut self, key: &str, val: &str)
        ensures
            final(self).options() == old(self).options().push(
                property_bytes(key.spec_bytes(), val.spec_bytes()),
            ),
    {
        self.property_raw(key.as_bytes(), val.as_bytes());
    }

    fn property_raw(&mut self, key: &[u8], val: &[u8])
        ensures
            final(self).options() == old(self).options().push(property_bytes(key@, val@)),
    {
        let mut o: Vec<u8> = Vec::new();
        o.push(45);
        o.push(68);
        o.extend_from_slice(key);
        o.push(61);
        o.extend_from_slice(val);
        proof {
            assert(o@ =~= property_bytes(key@, val@));
        }
        self.opts.push(o);
        proof {
            assert(self.opts@.drop_last() =~= old(self).opts@);
            assert(self.options() =~= old(self).options().push(property_bytes(key@, val@)));
        }
    }

    /// Hands the collected option strings over, consuming the builder;
    /// whoever owns the runtime turns them into its native argument block.
    pub fn into_options(self) -> (r: Vec<Vec<u8>>)
        ensures
            r@.map_values(|o: Vec<u8>| o@) == self.options(),
    {
        self.opts
    }
}

/// The option strings a validated delegate configuration produces: one
/// `-Dkey=value` per property, keys and values trimmed.
pub open spec fn jvm_options_spec(props: Seq<(Vec<u8>, Vec<u8>)>) -> Seq<Seq<u8>> {
    props.map_values(|p: (Vec<u8>, Vec<u8>)| property_bytes(trim_spec(p.0@), trim_spec(p.1@)))
}

/// A validated delegate configuration: the class to load and the runtime
/// options to create its virtual machine with.
pub struct JvmPlan {
    pub class_name: Vec<u8>,
    pub builder: InitArgsBuilder,
}

/// Validates a decoded delegate configuration: the class name must not be
/// blank, nor may any property key or value; keys, values and the class
/// name are trimmed. Returns the class name and the option builder, or
/// the exact configuration error.
pub fn validate_jvm_config(class_name: &[u8], properties: &Vec<(Vec<u8>, Vec<u8>)>) -> (r: Result<
    JvmPlan,
    ConfigError,
>)
    ensures
        r is Ok <==> !all_ws(class_name@) && (forall|i: int|
            0 <= i < properties@.len() ==> !all_ws((#[trigger] properties@[i]).0@) && !all_ws(
                properties@[i].1@,
            )),
        all_ws(class_name@) ==> r == Err::<JvmPlan, ConfigError>(ConfigError::EmptyClassName),
        !all_ws(class_name@) ==> (r matches Err(e) ==> e == ConfigError::EmptyProperty),
        r matches Ok(p) ==> p.class_name@ == trim_spec(class_name@) && p.builder.options()
            == jvm_options_spec(properties@),
{
    if crate::bytes::is_blank(class_name) {
        return Err(ConfigError::EmptyClassName);
    }
    let trimmed_class = crate::bytes::trim_bytes(class_name);
    let mut builder = InitArgsBuilder::new();
    let mut i: usize = 0;
    proof {
        assert(builder.options() =~= jvm_options_spec(properties@.take(0)));
    }
    while i < properties.len()
        invariant
            i <= properties@.len(),
            !all_ws(class_name@),
            forall|j: int|
                0 <= j < i ==> !all_ws((#[trigger] properties@[j]).0@) && !all_ws(
                    properties@[j].1@,
                ),
            builder.options() == jvm_options_spec(properties@.take(i as int)),
        decreases properties@.len() - i,
    {
        let k = &properties[i].0;
        let v = &properties[i].1;
        let k_blank = crate::bytes::is_blank(k.as_slice());
        let v_blank = crate::bytes::is_blank(v.as_slice());
        if k_blank || v_blank {
            proof {
                assert(all_ws((properties@[i as int]).0@) || all_ws((properties@[i as int]).1@));
            }
            return Err(ConfigError::EmptyProperty);
        }
        let kt = crate::bytes::trim_bytes(k.as_slice());
        let vt = crate::bytes::trim_bytes(v.as_slice());
        builder.property_raw(kt.as_slice(), vt.as_slice());
        i += 1;
        proof {
            assert(properties@.take(i as int).drop_last() =~= properties@.take(i - 1));
            assert(properties@.take(i as int).last() == properties@[i - 1]);
            assert(jvm_options_spec(properties@.take(i as int)) =~= jvm_options_spec(
                properties@.take(i - 1),
            ).push(property_bytes(trim_spec(properties@[i - 1].0@), trim_spec(properties@[i - 1].1@))));
        }
    }
    proof {
        assert(properties@.take(i as int) =~= properties@);
    }
    Ok(JvmPlan { class_name: trimmed_class, builder })
}

/// Per-frame rule for the embedded-runtime delegate: the buffer it hands
/// back must be exactly as long as the frame that went in; any other
/// length is the mismatch error, reported with both sizes.
pub fn delegate_result_ok(expected: u64, actual: u64) -> (r: Result<(), DelegateMismatch>)
    ensures
        r is Ok <==> expected == actual,
        r matches Err(e) ==> e.expected == expected && e.actual == actual,
{
    if expected == actual {
        Ok(())
    } else {
        Err(DelegateMismatch { expected, actual })
    }
}

} // verus!
