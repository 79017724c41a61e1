use vstd::prelude::*;

verus! {

/// ASCII whitespace: space, tab, line feed, vertical tab, form feed,
/// carriage return. This is a deliberate reading of "blank": trimming and
/// blank-detection work byte-wise on these six characters, so the exotic
/// Unicode spacing characters count as content. Document markup indents
/// with ASCII whitespace, and a payload made of Unicode spacing alone
/// still fails later, at scene parsing, rather than as a blank payload.
pub open spec fn is_ws(b: u8) -> bool {
    b == 32 || b == 9 || b == 10 || b == 11 || b == 12 || b == 13
}

pub open spec fn all_ws(s: Seq<u8>) -> bool {
    forall|i: int| 0 <= i < s.len() ==> is_ws(#[trigger] s[i])
}

pub open spec fn trim_front(s: Seq<u8>) -> Seq<u8>
    decreases s.len(),
{
    if s.len() > 0 && is_ws(s[0]) {
        trim_front(s.drop_first())
    } else {
        s
    }
}

pub open spec fn trim_back(s: Seq<u8>) -> Seq<u8>
    decreases s.len(),
{
    if s.len() > 0 && is_ws(s.last()) {
        trim_back(s.drop_last())
    } else {
        s
    }
}

/// `s` with leading and trailing ASCII whitespace removed.
pub open spec fn trim_spec(s: Seq<u8>) -> Seq<u8> {
    trim_back(trim_front(s))
}

proof fn lemma_trim_front_skip(s: Seq<u8>, lo: int)
    requires
        0 <= lo <= s.len(),
        forall|i: int| 0 <= i < lo ==> is_ws(#[trigger] s[i]),
        lo < s.len() ==> !is_ws(s[lo]),
    ensures
        trim_front(s) == s.skip(lo),
    decreases lo,
{
    if lo == 0 {
        assert(s.skip(0) =~= s);
    } else {
        assert(is_ws(s[0]));
        lemma_trim_front_skip(s.drop_first(), lo - 1);
        assert(s.drop_first().skip(lo - 1) =~= s.skip(lo));
    }
}

proof fn lemma_trim_back_take(s: Seq<u8>, hi: int)
    requires
        0 <= hi <= s.len(),
        forall|i: int| hi <= i < s.len() ==> is_ws(#[trigger] s[i]),
        hi > 0 ==> !is_ws(s[hi - 1]),
    ensures
        trim_back(s) == s.take(hi),
    decreases s.len() - hi,
{
    if hi == s.len() {
        assert(s.take(hi) =~= s);
    } else {
        assert(is_ws(s.last()));
        lemma_trim_back_take(s.drop_last(), hi);
        assert(s.drop_last().take(hi) =~= s.take(hi));
    }
}

/// Copies `s` without its leading and trailing ASCII whitespace.
pub fn trim_bytes(s: &[u8]) -> (r: Vec<u8>)
    ensures
        r@ == trim_spec(s@),
{
    let n = s.len();
    let mut lo: usize = 0;
    while lo < n && (s[lo] == 32 || s[lo] == 9 || s[lo] == 10 || s[lo] == 11 || s[lo] == 12
        || s[lo] == 13)
        invariant
            lo <= n,
            n == s@.len(),
            forall|i: int| 0 <= i < lo ==> is_ws(#[trigger] s@[i]),
        decreases n - lo,
    {
        lo += 1;
    }
    let mut hi: usize = n;
    while hi > lo && (s[hi - 1] == 32 || s[hi - 1] == 9 || s[hi - 1] == 10 || s[hi - 1] == 11
        || s[hi - 1] == 12 || s[hi - 1] == 13)
        invariant
            lo <= hi <= n,
            n == s@.len(),
            forall|i: int| 0 <= i < lo ==> is_ws(#[trigger] s@[i]),
            forall|i: int| hi <= i < n ==> is_ws(#[trigger] s@[i]),
            lo < n ==> !is_ws(s@[lo as int]),
        decreases hi,
    {
        hi -= 1;
    }
    proof {
        if lo == n {
            lemma_trim_front_skip(s@, lo as int);
            lemma_trim_back_take(s@.skip(lo as int), 0);
        } else {
            lemma_trim_front_skip(s@, lo as int);
            lemma_trim_back_take(s@.skip(lo as int), hi - lo as int);
        }
    }
    let mut out: Vec<u8> = Vec::new();
    let mut i: usize = lo;
    while i < hi
        invariant
            lo <= i <= hi <= n,
            n == s@.len(),
            out@ =~= s@.subrange(lo as int, i as int),
        decreases hi - i,
    {
        out.push(s[i]);
        i += 1;
    }
    proof {
        assert(out@ =~= s@.skip(lo as int).take(hi - lo as int));
    }
    out
}

/// Whether the bytes are nothing but ASCII whitespace, which is exactly
/// when trimming leaves them empty.
pub fn is_blank(s: &[u8]) -> (r: bool)
    ensures
        r == all_ws(s@),
        r == (trim_spec(s@).len() == 0),
{
    let mut i: usize = 0;
    let n = s.len();
    let mut blank = true;
    while i < n
        invariant
            i <= n,
            n == s@.len(),
            blank == (forall|j: int| 0 <= j < i ==> is_ws(#[trigger] s@[j])),
        decreases n - i,
    {
        if !(s[i] == 32 || s[i] == 9 || s[i] == 10 || s[i] == 11 || s[i] == 12 || s[i] == 13) {
            blank = false;
            proof {
                assert(!is_ws(s@[i as int]));
            }
        }
        i += 1;
    }
    proof {
        if blank {
            lemma_trim_front_skip(s@, s@.len() as int);
            lemma_trim_back_take(s@.skip(s@.len() as int), 0);
            assert(trim_spec(s@) =~= Seq::<u8>::empty());
        } else {
            let j = choose|j: int| 0 <= j < s@.len() && !is_ws(s@[j]);
            lemma_trim_nonblank(s@, j);
        }
    }
    blank
}

/// A non-whitespace byte survives trimming.
proof fn lemma_trim_nonblank(s: Seq<u8>, j: int)
    requires
        0 <= j < s.len(),
        !is_ws(s[j]),
    ensures
        trim_spec(s).len() > 0,
    decreases s.len(),
{
    if s.len() > 0 && is_ws(s[0]) {
        lemma_trim_nonblank(s.drop_first(), j - 1);
    } else {
        lemma_trim_back_nonblank(s, j);
    }
}

proof fn lemma_trim_back_nonblank(s: Seq<u8>, j: int)
    requires
        0 <= j < s.len(),
        !is_ws(s[j]),
    ensures
        trim_back(s).len() > 0,
    decreases s.len(),
{
    if s.len() > 0 && is_ws(s.last()) {
        lemma_trim_back_nonblank(s.drop_last(), j);
    }
}

pub open spec fn is_digit(b: u8) -> bool {
    48 <= b <= 57
}

/// The value of a pure digit string, most significant digit first.
pub open spec fn digits_val(s: Seq<u8>) -> nat
    decreases s.len(),
{
    if s.len() == 0 {
        0
    } else {
        digits_val(s.drop_last()) * 10 + (s.last() - 48) as nat
    }
}

/// The digits of a decimal literal: everything after one optional `+`.
pub open spec fn dec_body(s: Seq<u8>) -> Seq<u8> {
    if s.len() >= 1 && s[0] == 43 {
        s.drop_first()
    } else {
        s
    }
}

pub open spec fn all_digits(s: Seq<u8>) -> bool {
    forall|i: int| 0 <= i < s.len() ==> is_digit(#[trigger] s[i])
}

/// What `u64` accepts as a decimal literal: an optional leading `+`, then
/// at least one digit, nothing else, and a value that fits.
pub open spec fn is_u64_dec(s: Seq<u8>) -> bool {
    &&& dec_body(s).len() >= 1
    &&& all_digits(dec_body(s))
    &&& digits_val(dec_body(s)) <= u64::MAX
}

proof fn lemma_digits_val_grows(s: Seq<u8>, k: int)
    requires
        0 <= k <= s.len(),
    ensures
        digits_val(s.take(k)) <= digits_val(s),
    decreases s.len() - k,
{
    if k < s.len() {
        assert(s.take(k + 1).drop_last() =~= s.take(k));
        assert(digits_val(s.take(k + 1)) == digits_val(s.take(k)) * 10 + (s[k] - 48) as nat);
        lemma_digits_val_grows(s, k + 1);
    } else {
        assert(s.take(k) =~= s);
    }
}

/// Parses a decimal `u64` with the standard library's grammar: optional
/// leading `+`, at least one digit, no other bytes, value in range.
/// Returns `None` exactly when the input breaks one of those rules.
pub fn parse_u64_dec(s: &[u8]) -> (r: Option<u64>)
    ensures
        r matches Some(v) ==> is_u64_dec(s@) && v == digits_val(dec_body(s@)),
        r is None ==> !is_u64_dec(s@),
{
    let n = s.len();
    let start: usize = if n >= 1 && s[0] == 43 {
        1
    } else {
        0
    };
    proof {
        assert(dec_body(s@) =~= s@.skip(start as int));
    }
    if n == start {
        return None;
    }
    let ghost body = s@.skip(start as int);
    let mut acc: u128 = 0;
    let mut i: usize = start;
    while i < n
        invariant
            start <= i <= n,
            n == s@.len(),
            body == s@.skip(start as int),
            body == dec_body(s@),
            body.len() == n - start,
            acc <= u64::MAX,
            all_digits(body.take(i - start)),
            acc == digits_val(body.take(i - start)),
        decreases n - i,
    {
        let b = s[i];
        if b < 48 || b > 57 {
            proof {
                assert(body[i - start] == s@[i as int]);
                assert(!is_digit(body[i - start]));
            }
            return None;
        }
        let d = (b - 48) as u128;
        acc = acc * 10 + d;
        i += 1;
        proof {
            assert(body.take(i - start).drop_last() =~= body.take(i - start - 1));
            assert(body.take(i - start).last() == s@[i - 1]);
            assert(acc == digits_val(body.take(i - start)));
        }
        if acc > 0xffff_ffff_ffff_ffff {
            proof {
                lemma_digits_val_grows(body, i - start);
                assert(digits_val(body) > u64::MAX);
            }
            return None;
        }
    }
    proof {
        assert(body.take(i - start) =~= body);
    }
    Some(acc as u64)
}

/// Parses a decimal `usize` the same way; the value must also fit the
/// machine's index type.
pub fn parse_usize_dec(s: &[u8]) -> (r: Option<usize>)
    ensures
        r matches Some(v) ==> is_u64_dec(s@) && digits_val(dec_body(s@)) <= usize::MAX
            && v == digits_val(dec_body(s@)),
        r is None ==> !(is_u64_dec(s@) && digits_val(dec_body(s@)) <= usize::MAX),
{
    match parse_u64_dec(s) {
        None => None,
        Some(v) => {
            if v <= usize::MAX as u64 {
                Some(v as usize)
            } else {
                None
            }
        },
    }
}

} // verus!
