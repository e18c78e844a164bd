//! Byte-level text helpers shared by the configuration-facing modules:
//! whitespace trimming, searching, case folding and comparison, with their
//! specifications.

use vstd::prelude::*;

verus! {

/// The bytes line splitting and trimming treat as whitespace: space, tab,
/// line feed, vertical tab, form feed, carriage return.
pub open spec fn is_ws_byte(b: u8) -> bool {
    b == 32 || b == 9 || b == 10 || b == 11 || b == 12 || b == 13
}

/// `s` without its leading whitespace bytes.
pub open spec fn spec_trim_start(s: Seq<u8>) -> Seq<u8>
    decreases s.len(),
{
    if s.len() == 0 {
        s
    } else if is_ws_byte(s[0]) {
        spec_trim_start(s.drop_first())
    } else {
        s
    }
}

/// `s` without its trailing whitespace bytes.
pub open spec fn spec_trim_end(s: Seq<u8>) -> Seq<u8>
    decreases s.len(),
{
    if s.len() == 0 {
        s
    } else if is_ws_byte(s.last()) {
        spec_trim_end(s.drop_last())
    } else {
        s
    }
}

/// `s` without leading and trailing whitespace bytes.
pub open spec fn spec_trim(s: Seq<u8>) -> Seq<u8> {
    spec_trim_end(spec_trim_start(s))
}

/// The index of the first occurrence of `target` in `s`, or `s.len()` when
/// it does not occur.
pub open spec fn spec_find_byte(s: Seq<u8>, target: u8) -> int
    decreases s.len(),
{
    if s.len() == 0 {
        0
    } else if s[0] == target {
        0
    } else {
        1 + spec_find_byte(s.drop_first(), target)
    }
}

/// `spec_find_byte` stays within bounds, misses `target` before the index
/// it names, and hits it there when it is in range.
pub proof fn lemma_find_byte(s: Seq<u8>, target: u8)
    ensures
        0 <= spec_find_byte(s, target) <= s.len(),
        forall|j: int| 0 <= j < spec_find_byte(s, target) ==> s[j] != target,
        spec_find_byte(s, target) < s.len() ==> s[spec_find_byte(s, target)] == target,
    decreases s.len(),
{
    if s.len() == 0 {
    } else if s[0] == target {
    } else {
        lemma_find_byte(s.drop_first(), target);
        assert(forall|j: int| 1 <= j < s.len() ==> #[trigger] s[j] == s.drop_first()[j - 1]);
    }
}

/// ASCII case folding of one byte: an upper-case letter becomes lower-case,
/// any other byte stays itself.
pub open spec fn lower_byte(b: u8) -> u8 {
    if 65 <= b <= 90 {
        (b + 32) as u8
    } else {
        b
    }
}

/// ASCII case folding of a whole byte sequence.
pub open spec fn spec_lower(s: Seq<u8>) -> Seq<u8> {
    s.map_values(|b: u8| lower_byte(b))
}

/// The count of leading whitespace bytes of `s`.
pub open spec fn spec_ws_run(s: Seq<u8>) -> int
    decreases s.len(),
{
    if s.len() == 0 {
        0
    } else if is_ws_byte(s[0]) {
        1 + spec_ws_run(s.drop_first())
    } else {
        0
    }
}

/// The count of leading non-whitespace bytes of `s`.
pub open spec fn spec_token_run(s: Seq<u8>) -> int
    decreases s.len(),
{
    if s.len() == 0 {
        0
    } else if is_ws_byte(s[0]) {
        0
    } else {
        1 + spec_token_run(s.drop_first())
    }
}

/// Two character sequences with the same UTF-8 encoding are the same.
pub(crate) proof fn lemma_encode_injective(a: Seq<char>, b: Seq<char>)
    ensures
        vstd::utf8::encode_utf8(a) == vstd::utf8::encode_utf8(b) ==> a == b,
{
    if vstd::utf8::encode_utf8(a) == vstd::utf8::encode_utf8(b) {
        vstd::utf8::encode_utf8_decode_utf8(a);
        vstd::utf8::encode_utf8_decode_utf8(b);
    }
}

/// Whether two string slices hold the same characters.
pub(crate) fn str_eq(a: &str, b: &str) -> (r: bool)
    ensures
        r == (a@ == b@),
{
    let r = bytes_eq(a.as_bytes(), b.as_bytes());
    proof {
        lemma_encode_injective(a@, b@);
    }
    r
}


/// Relies on `String::from_utf8`: it succeeds exactly on valid UTF-8, and
/// then the string's characters are the decoded scalars of the input bytes.
#[verifier::external_body]
pub(crate) fn utf8_string(bytes: Vec<u8>) -> (r: Option<String>)
    ensures
        match r {
            Some(s) => vstd::utf8::valid_utf8(bytes@) && s@ == vstd::utf8::decode_utf8(bytes@),
            None => !vstd::utf8::valid_utf8(bytes@),
        },
{
    String::from_utf8(bytes).ok()
}

/// Bytes below 128 are valid UTF-8, one character per byte.
pub(crate) proof fn lemma_ascii_decode(bytes: Seq<u8>)
    requires
        forall|i: int| 0 <= i < bytes.len() ==> bytes[i] < 128,
    ensures
        vstd::utf8::valid_utf8(bytes),
        vstd::utf8::decode_utf8(bytes) == bytes.map_values(|b: u8| b as char),
    decreases bytes.len(),
{
    if bytes.len() == 0 {
        assert(vstd::utf8::decode_utf8(bytes) =~= bytes.map_values(|b: u8| b as char));
    } else {
        let b = bytes[0];
        assert(b < 128 ==> b & 0x7f == b) by (bit_vector);
        assert(vstd::utf8::decode_first_codepoint(bytes) == b as u32);
        assert(vstd::utf8::valid_first_scalar(bytes));
        assert(vstd::utf8::pop_first_scalar(bytes) =~= bytes.drop_first());
        assert(forall|i: int|
            0 <= i < bytes.len() - 1 ==> #[trigger] bytes.drop_first()[i] == bytes[i + 1]);
        lemma_ascii_decode(bytes.drop_first());
        assert(vstd::utf8::decode_utf8(bytes) =~= bytes.map_values(|b: u8| b as char));
    }
}

/// Byte-for-byte equality of two slices.
pub(crate) fn bytes_eq(a: &[u8], b: &[u8]) -> (r: bool)
    ensures
        r == (a@ == b@),
{
    if a.len() != b.len() {
        return false;
    }
    let mut i: usize = 0;
    while i < a.len()
        invariant
            i <= a@.len(),
            a@.len() == b@.len(),
            forall|j: int| 0 <= j < i ==> a@[j] == b@[j],
        decreases a@.len() - i,
    {
        if a[i] != b[i] {
            return false;
        }
        i = i + 1;
    }
    proof {
        assert(a@ =~= b@);
    }
    true
}

/// The index of the first occurrence of `target` in `data` at or after
/// `from`, or `data.len()` when there is none.
pub(crate) fn find_byte(data: &[u8], from: usize, target: u8) -> (r: usize)
    requires
        from <= data@.len(),
    ensures
        from <= r <= data@.len(),
        r - from == spec_find_byte(data@.skip(from as int), target),
{
    let mut j: usize = from;
    while j < data.len()
        invariant
            from <= j <= data@.len(),
            spec_find_byte(data@.skip(from as int), target) == (j - from) + spec_find_byte(
                data@.skip(j as int),
                target,
            ),
        decreases data@.len() - j,
    {
        proof {
            assert(data@.skip(j as int)[0] == data@[j as int]);
            assert(data@.skip(j as int).drop_first() =~= data@.skip(j as int + 1));
        }
        if data[j] == target {
            return j;
        }
        j = j + 1;
    }
    proof {
        assert(data@.skip(j as int).len() == 0);
    }
    j
}

/// Whether `b` is one of the whitespace bytes trimming removes.
pub(crate) fn is_ws(b: u8) -> (r: bool)
    ensures
        r == is_ws_byte(b),
{
    b == 32 || b == 9 || b == 10 || b == 11 || b == 12 || b == 13
}

/// Dropping exactly the leading run of whitespace is what
/// `spec_trim_start` does.
pub(crate) proof fn lemma_trim_start_skip(s: Seq<u8>, a: int)
    requires
        0 <= a <= s.len(),
        forall|j: int| 0 <= j < a ==> is_ws_byte(#[trigger] s[j]),
        a < s.len() ==> !is_ws_byte(s[a]),
    ensures
        spec_trim_start(s) == s.skip(a),
    decreases a,
{
    if a == 0 {
        assert(s.skip(0) =~= s);
    } else {
        assert(forall|j: int| 0 <= j < a - 1 ==> s.drop_first()[j] == s[j + 1]);
        lemma_trim_start_skip(s.drop_first(), a - 1);
        assert(s.drop_first().skip(a - 1) =~= s.skip(a));
    }
}

/// Dropping exactly the trailing run of whitespace is what `spec_trim_end`
/// does.
pub(crate) proof fn lemma_trim_end_take(s: Seq<u8>, z: int)
    requires
        0 <= z <= s.len(),
        forall|j: int| z <= j < s.len() ==> is_ws_byte(#[trigger] s[j]),
        z > 0 ==> !is_ws_byte(s[z - 1]),
    ensures
        spec_trim_end(s) == s.take(z),
    decreases s.len() - z,
{
    if z == s.len() {
        assert(s.take(z) =~= s);
    } else {
        assert(forall|j: int| z <= j < s.len() - 1 ==> s.drop_last()[j] == s[j]);
        lemma_trim_end_take(s.drop_last(), z);
        assert(s.drop_last().take(z) =~= s.take(z));
    }
}

/// The sub-slice of `data` without leading and trailing whitespace bytes.
pub(crate) fn trim_slice(data: &[u8]) -> (r: &[u8])
    ensures
        r@ == spec_trim(data@),
{
    let mut a: usize = 0;
    while a < data.len() && is_ws(data[a])
        invariant
            a <= data@.len(),
            forall|j: int| 0 <= j < a ==> is_ws_byte(#[trigger] data@[j]),
        decreases data@.len() - a,
    {
        a = a + 1;
    }
    let mut z: usize = data.len();
    while z > a && is_ws(data[z - 1])
        invariant
            a <= z <= data@.len(),
            forall|j: int| z <= j < data@.len() ==> is_ws_byte(#[trigger] data@[j]),
        decreases z,
    {
        z = z - 1;
    }
    proof {
        lemma_trim_start_skip(data@, a as int);
        let t = data@.skip(a as int);
        assert(forall|j: int| z - a <= j < t.len() ==> t[j] == data@[j + a]);
        lemma_trim_end_take(t, z - a);
        assert(t.take(z - a) =~= data@.subrange(a as int, z as int));
    }
    &data[a..z]
}

/// The end of the whitespace run that starts at `from`.
pub(crate) fn ws_run_end(data: &[u8], from: usize) -> (r: usize)
    requires
        from <= data@.len(),
    ensures
        from <= r <= data@.len(),
        r - from == spec_ws_run(data@.skip(from as int)),
{
    let mut j: usize = from;
    while j < data.len() && is_ws(data[j])
        invariant
            from <= j <= data@.len(),
            spec_ws_run(data@.skip(from as int)) == (j - from) + spec_ws_run(
                data@.skip(j as int),
            ),
        decreases data@.len() - j,
    {
        proof {
            assert(data@.skip(j as int)[0] == data@[j as int]);
            assert(data@.skip(j as int).drop_first() =~= data@.skip(j as int + 1));
        }
        j = j + 1;
    }
    proof {
        if j < data@.len() {
            assert(data@.skip(j as int)[0] == data@[j as int]);
        }
    }
    j
}

/// The end of the non-whitespace run that starts at `from`.
pub(crate) fn token_run_end(data: &[u8], from: usize) -> (r: usize)
    requires
        from <= data@.len(),
    ensures
        from <= r <= data@.len(),
        r - from == spec_token_run(data@.skip(from as int)),
{
    let mut j: usize = from;
    while j < data.len() && !is_ws(data[j])
        invariant
            from <= j <= data@.len(),
            spec_token_run(data@.skip(from as int)) == (j - from) + spec_token_run(
                data@.skip(j as int),
            ),
        decreases data@.len() - j,
    {
        proof {
            assert(data@.skip(j as int)[0] == data@[j as int]);
            assert(data@.skip(j as int).drop_first() =~= data@.skip(j as int + 1));
        }
        j = j + 1;
    }
    proof {
        if j < data@.len() {
            assert(data@.skip(j as int)[0] == data@[j as int]);
        }
    }
    j
}

} // verus!
