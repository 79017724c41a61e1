use vstd::prelude::*;
use crate::errors::ConfigError;
use crate::fit::ScaleType;

verus! {

/// How the overlay source file is compressed.
#[derive(Clone, Copy, Debug, PartialEq, Eq, Structural)]
pub enum Compression {
    Uncompressed,
    Gzip,
}

/// Configuration of the binary-scene filter: scale policy and resource path.
#[derive(Debug, PartialEq, Eq)]
pub struct SrfConfig {
    pub scale_type: ScaleType,
    pub path: Vec<u8>,
}

/// Configuration of the timed-scene filter: compression and resource path.
#[derive(Debug, PartialEq, Eq)]
pub struct TsvgConfig {
    pub compression: Compression,
    pub path: Vec<u8>,
}

/// Configuration of the static-scene filter: the resource path alone.
#[derive(Debug, PartialEq, Eq)]
pub struct SvgConfig {
    pub path: Vec<u8>,
}

pub open spec fn starts_with(s: Seq<u8>, p: Seq<u8>) -> bool {
    p.len() <= s.len() && s.take(p.len() as int) == p
}

/// Any byte run without a line feed; a path value may not span lines.
pub open spec fn no_newline(s: Seq<u8>) -> bool {
    forall|i: int| 0 <= i < s.len() ==> s[i] != 10u8
}

/// A non-empty path value.
pub open spec fn is_path_tail(s: Seq<u8>) -> bool {
    s.len() >= 1 && no_newline(s)
}

/// The bytes of `"srf="`.
pub open spec fn key_srf() -> Seq<u8> {
    seq![115u8, 114, 102, 61]
}

/// The bytes of `"scale_type="`.
pub open spec fn key_scale_type() -> Seq<u8> {
    seq![115u8, 99, 97, 108, 101, 95, 116, 121, 112, 101, 61]
}

/// The bytes of `"none,"`.
pub open spec fn lit_none_comma() -> Seq<u8> {
    seq![110u8, 111, 110, 101, 44]
}

/// The bytes of `"uniform,"`.
pub open spec fn lit_uniform_comma() -> Seq<u8> {
    seq![117u8, 110, 105, 102, 111, 114, 109, 44]
}

/// The bytes of `"non_uniform,"`.
pub open spec fn lit_non_uniform_comma() -> Seq<u8> {
    seq![110u8, 111, 110, 95, 117, 110, 105, 102, 111, 114, 109, 44]
}

/// The bytes of `"compression="`.
pub open spec fn key_compression() -> Seq<u8> {
    seq![99u8, 111, 109, 112, 114, 101, 115, 115, 105, 111, 110, 61]
}

/// The bytes of `"gzip,"`.
pub open spec fn lit_gzip_comma() -> Seq<u8> {
    seq![103u8, 122, 105, 112, 44]
}

/// The bytes of `"tsvg="`.
pub open spec fn key_tsvg() -> Seq<u8> {
    seq![116u8, 115, 118, 103, 61]
}

/// The bytes of `"svg="`.
pub open spec fn key_svg() -> Seq<u8> {
    seq![115u8, 118, 103, 61]
}

pub open spec fn srf_tail(rest: Seq<u8>, st: ScaleType) -> Option<(ScaleType, Seq<u8>)> {
    if starts_with(rest, key_srf()) && is_path_tail(rest.skip(4)) {
        Some((st, rest.skip(4)))
    } else {
        None
    }
}

/// The binary-scene configuration grammar: an optional
/// `scale_type=none|uniform|non_uniform,` prefix (policy defaults to
/// `Uniform` when absent), then `srf=` and a non-empty single-line path
/// that runs to the end of the string.
pub open spec fn srf_config_spec(s: Seq<u8>) -> Option<(ScaleType, Seq<u8>)> {
    if starts_with(s, key_srf()) && is_path_tail(s.skip(4)) {
        Some((ScaleType::Uniform, s.skip(4)))
    } else if starts_with(s, key_scale_type()) {
        let rest = s.skip(11);
        if starts_with(rest, lit_none_comma()) {
            srf_tail(rest.skip(5), ScaleType::Unscaled)
        } else if starts_with(rest, lit_uniform_comma()) {
            srf_tail(rest.skip(8), ScaleType::Uniform)
        } else if starts_with(rest, lit_non_uniform_comma()) {
            srf_tail(rest.skip(12), ScaleType::NonUniform)
        } else {
            None
        }
    } else {
        None
    }
}

pub open spec fn tsvg_tail(rest: Seq<u8>, c: Compression) -> Option<(Compression, Seq<u8>)> {
    if starts_with(rest, key_tsvg()) && is_path_tail(rest.skip(5)) {
        Some((c, rest.skip(5)))
    } else {
        None
    }
}

/// The timed-scene configuration grammar: an optional
/// `compression=none|gzip,` prefix (defaults to `Gzip` when absent), then
/// `tsvg=` and a non-empty single-line path to the end of the string.
pub open spec fn tsvg_config_spec(s: Seq<u8>) -> Option<(Compression, Seq<u8>)> {
    if starts_with(s, key_tsvg()) && is_path_tail(s.skip(5)) {
        Some((Compression::Gzip, s.skip(5)))
    } else if starts_with(s, key_compression()) {
        let rest = s.skip(12);
        if starts_with(rest, lit_none_comma()) {
            tsvg_tail(rest.skip(5), Compression::Uncompressed)
        } else if starts_with(rest, lit_gzip_comma()) {
            tsvg_tail(rest.skip(5), Compression::Gzip)
        } else {
            None
        }
    } else {
        None
    }
}

/// The static-scene configuration grammar: `svg=` then a possibly empty
/// single-line path to the end of the string.
pub open spec fn svg_config_spec(s: Seq<u8>) -> Option<Seq<u8>> {
    if starts_with(s, key_svg()) && no_newline(s.skip(4)) {
        Some(s.skip(4))
    } else {
        None
    }
}

/// Compares `s` at offset `at` against the whole of `pat`.
fn match_at(s: &[u8], at: usize, pat: &Vec<u8>) -> (r: bool)
    requires
        at <= s@.len(),
    ensures
        r == starts_with(s@.skip(at as int), pat@),
{
    let n = s.len();
    if n - at < pat.len() {
        return false;
    }
    let mut i: usize = 0;
    while i < pat.len()
        invariant
            i <= pat@.len(),
            n == s@.len(),
            at + pat@.len() <= n,
            forall|j: int| 0 <= j < i ==> s@[at + j] == pat@[j],
        decreases pat@.len() - i,
    {
        if s[at + i] != pat[i] {
            proof {
                assert(s@.skip(at as int)[i as int] != pat@[i as int]);
                assert(!starts_with(s@.skip(at as int), pat@));
            }
            return false;
        }
        i += 1;
    }
    proof {
        assert(s@.skip(at as int).take(pat@.len() as int) =~= pat@);
    }
    true
}

/// Copies the bytes of `s` from `from` to the end.
fn copy_tail(s: &[u8], from: usize) -> (r: Vec<u8>)
    requires
        from <= s@.len(),
    ensures
        r@ == s@.skip(from as int),
{
    let mut out: Vec<u8> = Vec::new();
    let mut i: usize = from;
    while i < s.len()
        invariant
            from <= i <= s@.len(),
            out@ =~= s@.subrange(from as int, i as int),
        decreases s@.len() - i,
    {
        out.push(s[i]);
        i += 1;
    }
    proof {
        assert(out@ =~= s@.skip(from as int));
    }
    out
}

/// Whether the bytes from `from` on form a non-empty, single-line path.
fn path_tail_ok(s: &[u8], from: usize) -> (r: bool)
    requires
        from <= s@.len(),
    ensures
        r == is_path_tail(s@.skip(from as int)),
{
    if s.len() == from {
        return false;
    }
    let mut i: usize = from;
    while i < s.len()
        invariant
            from <= i <= s@.len(),
            forall|j: int| from <= j < i ==> s@[j] != 10u8,
        decreases s@.len() - i,
    {
        if s[i] == 10 {
            proof {
                assert(s@.skip(from as int)[i - from] == 10u8);
            }
            return false;
        }
        i += 1;
    }
    true
}

fn vec_srf() -> (r: Vec<u8>)
    ensures
        r@ == key_srf(),
{
    let v = vec![115u8, 114, 102, 61];
    proof {
        assert(v@ =~= key_srf());
    }
    v
}

fn vec_scale_type() -> (r: Vec<u8>)
    ensures
        r@ == key_scale_type(),
{
    let v = vec![115u8, 99, 97, 108, 101, 95, 116, 121, 112, 101, 61];
    proof {
        assert(v@ =~= key_scale_type());
    }
    v
}

fn vec_none_comma() -> (r: Vec<u8>)
    ensures
        r@ == lit_none_comma(),
{
    let v = vec![110u8, 111, 110, 101, 44];
    proof {
        assert(v@ =~= lit_none_comma());
    }
    v
}

fn vec_uniform_comma() -> (r: Vec<u8>)
    ensures
        r@ == lit_uniform_comma(),
{
    let v = vec![117u8, 110, 105, 102, 111, 114, 109, 44];
    proof {
        assert(v@ =~= lit_uniform_comma());
    }
    v
}

fn vec_non_uniform_comma() -> (r: Vec<u8>)
    ensures
        r@ == lit_non_uniform_comma(),
{
    let v = vec![110u8, 111, 110, 95, 117, 110, 105, 102, 111, 114, 109, 44];
    proof {
        assert(v@ =~= lit_non_uniform_comma());
    }
    v
}

fn vec_compression() -> (r: Vec<u8>)
    ensures
        r@ == key_compression(),
{
    let v = vec![99u8, 111, 109, 112, 114, 101, 115, 115, 105, 111, 110, 61];
    proof {
        assert(v@ =~= key_compression());
    }
    v
}

fn vec_gzip_comma() -> (r: Vec<u8>)
    ensures
        r@ == lit_gzip_comma(),
{
    let v = vec![103u8, 122, 105, 112, 44];
    proof {
        assert(v@ =~= lit_gzip_comma());
    }
    v
}

fn vec_tsvg() -> (r: Vec<u8>)
    ensures
        r@ == key_tsvg(),
{
    let v = vec![116u8, 115, 118, 103, 61];
    proof {
        assert(v@ =~= key_tsvg());
    }
    v
}

fn vec_svg() -> (r: Vec<u8>)
    ensures
        r@ == key_svg(),
{
    let v = vec![115u8, 118, 103, 61];
    proof {
        assert(v@ =~= key_svg());
    }
    v
}

/// Parses the binary-scene filter configuration; any string the grammar
/// does not produce is the configuration error.
pub fn parse_srf_config(s: &[u8]) -> (r: Result<SrfConfig, ConfigError>)
    ensures
        r is Ok <==> srf_config_spec(s@) is Some,
        r matches Ok(c) ==> srf_config_spec(s@) == Some((c.scale_type, c.path@)),
        r is Err ==> r == Err::<SrfConfig, ConfigError>(ConfigError::Malformed),
{
    let srf = vec_srf();
    proof {
        assert(s@.skip(0) =~= s@);
    }
    if match_at(s, 0, &srf) && path_tail_ok(s, 4) {
        return Ok(SrfConfig { scale_type: ScaleType::Uniform, path: copy_tail(s, 4) });
    }
    let scale_key = vec_scale_type();
    if match_at(s, 0, &scale_key) {
        let st: ScaleType;
        let after: usize;
        if match_at(s, 11, &vec_none_comma()) {
            st = ScaleType::Unscaled;
            after = 16;
        } else if match_at(s, 11, &vec_uniform_comma()) {
            st = ScaleType::Uniform;
            after = 19;
        } else if match_at(s, 11, &vec_non_uniform_comma()) {
            st = ScaleType::NonUniform;
            after = 23;
        } else {
            return Err(ConfigError::Malformed);
        }
        proof {
            assert(s@.skip(11).skip(after - 11) =~= s@.skip(after as int));
        }
        if match_at(s, after, &srf) {
            proof {
                assert(s@.skip(after as int).skip(4) =~= s@.skip(after + 4));
            }
            if path_tail_ok(s, after + 4) {
                return Ok(SrfConfig { scale_type: st, path: copy_tail(s, after + 4) });
            }
        }
        return Err(ConfigError::Malformed);
    }
    Err(ConfigError::Malformed)
}

/// Parses the timed-scene filter configuration; any string the grammar
/// does not produce is the configuration error.
pub fn parse_tsvg_config(s: &[u8]) -> (r: Result<TsvgConfig, ConfigError>)
    ensures
        r is Ok <==> tsvg_config_spec(s@) is Some,
        r matches Ok(c) ==> tsvg_config_spec(s@) == Some((c.compression, c.path@)),
        r is Err ==> r == Err::<TsvgConfig, ConfigError>(ConfigError::Malformed),
{
    let tsvg = vec_tsvg();
    proof {
        assert(s@.skip(0) =~= s@);
    }
    if match_at(s, 0, &tsvg) && path_tail_ok(s, 5) {
        return Ok(TsvgConfig { compression: Compression::Gzip, path: copy_tail(s, 5) });
    }
    let comp_key = vec_compression();
    if match_at(s, 0, &comp_key) {
        let c: Compression;
        let after: usize;
        if match_at(s, 12, &vec_none_comma()) {
            c = Compression::Uncompressed;
            after = 17;
        } else if match_at(s, 12, &vec_gzip_comma()) {
            c = Compression::Gzip;
            after = 17;
        } else {
            return Err(ConfigError::Malformed);
        }
        proof {
            assert(s@.skip(12).skip(5) =~= s@.skip(17));
        }
        if match_at(s, after, &tsvg) {
            proof {
                assert(s@.skip(after as int).skip(5) =~= s@.skip(after + 5));
            }
            if path_tail_ok(s, after + 5) {
                return Ok(TsvgConfig { compression: c, path: copy_tail(s, after + 5) });
            }
        }
        return Err(ConfigError::Malformed);
    }
    Err(ConfigError::Malformed)
}

/// Parses the static-scene filter configuration; the path may be empty.
pub fn parse_svg_config(s: &[u8]) -> (r: Result<SvgConfig, ConfigError>)
    ensures
        r is Ok <==> svg_config_spec(s@) is Some,
        r matches Ok(c) ==> svg_config_spec(s@) == Some(c.path@),
        r is Err ==> r == Err::<SvgConfig, ConfigError>(ConfigError::Malformed),
{
    let svg = vec_svg();
    proof {
        assert(s@.skip(0) =~= s@);
    }
    if match_at(s, 0, &svg) {
        // the path may be empty here, so only the line rule is checked
        let mut i: usize = 4;
        while i < s.len()
            invariant
                4 <= i <= s@.len(),
                s@.len() >= 4,
                forall|j: int| 4 <= j < i ==> s@[j] != 10u8,
            decreases s@.len() - i,
        {
            if s[i] == 10 {
                proof {
                    assert(s@.skip(4)[i - 4] == 10u8);
                }
                return Err(ConfigError::Malformed);
            }
            i += 1;
        }
        return Ok(SvgConfig { path: copy_tail(s, 4) });
    }
    Err(ConfigError::Malformed)
}

} // verus!
