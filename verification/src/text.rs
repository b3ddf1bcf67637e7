//! Byte-level text utilities: character classes, scanning, searching,
//! splitting and trimming, each with a specification-level model.
use vstd::prelude::*;

verus! {

/// True of the bytes that may appear in an option key: ASCII digits,
/// letters, and the underscore.
pub open spec fn is_word_byte(b: u8) -> bool {
    (48 <= b <= 57) || (65 <= b <= 90) || (97 <= b <= 122) || b == 95
}

/// True of ASCII whitespace bytes: tab, newline, carriage return, space.
pub open spec fn is_space_byte(b: u8) -> bool {
    b == 9 || b == 10 || b == 13 || b == 32
}

/// True of ASCII decimal digit bytes.
pub open spec fn is_digit_byte(b: u8) -> bool {
    48 <= b <= 57
}

pub fn word_byte(b: u8) -> (r: bool)
    ensures
        r == is_word_byte(b),
{
    (48 <= b && b <= 57) || (65 <= b && b <= 90) || (97 <= b && b <= 122) || b == 95
}

pub fn space_byte(b: u8) -> (r: bool)
    ensures
        r == is_space_byte(b),
{
    b == 9 || b == 10 || b == 13 || b == 32
}

pub fn digit_byte(b: u8) -> (r: bool)
    ensures
        r == is_digit_byte(b),
{
    48 <= b && b <= 57
}

/// The bytes of an ASCII character sequence, character by character.
pub open spec fn bytes_of_str(s: Seq<char>) -> Seq<u8> {
    Seq::new(s.len(), |i: int| s[i] as u8)
}

/// Turns an ASCII string literal into its byte vector.
pub fn lit_vec(s: &str) -> (v: Vec<u8>)
    requires
        s.is_ascii(),
    ensures
        v@ == bytes_of_str(s@),
{
    let v = s.as_bytes_vec();
    proof {
        vstd::string::is_ascii_spec_bytes(s);
        assert(v@ =~= bytes_of_str(s@));
    }
    v
}

/// The first index at or after `i` whose byte is not whitespace, or the
/// length of `s` if only whitespace follows.
pub open spec fn skip_spaces(s: Seq<u8>, i: int) -> int
    recommends
        0 <= i <= s.len(),
    decreases s.len() - i,
    when 0 <= i <= s.len()
{
    if i >= s.len() {
        i
    } else if is_space_byte(s[i]) {
        skip_spaces(s, i + 1)
    } else {
        i
    }
}

/// The first index at or after `i` whose byte is not a word byte.
pub open spec fn scan_word(s: Seq<u8>, i: int) -> int
    recommends
        0 <= i <= s.len(),
    decreases s.len() - i,
    when 0 <= i <= s.len()
{
    if i >= s.len() {
        i
    } else if is_word_byte(s[i]) {
        scan_word(s, i + 1)
    } else {
        i
    }
}

/// The first index at or after `i` holding byte `b`, or the length of `s`.
pub open spec fn find_byte(s: Seq<u8>, i: int, b: u8) -> int
    recommends
        0 <= i <= s.len(),
    decreases s.len() - i,
    when 0 <= i <= s.len()
{
    if i >= s.len() {
        i
    } else if s[i] == b {
        i
    } else {
        find_byte(s, i + 1, b)
    }
}

pub fn skip_spaces_at(s: &[u8], from: usize) -> (r: usize)
    requires
        from <= s@.len(),
    ensures
        r == skip_spaces(s@, from as int),
        from <= r <= s@.len(),
{
    let mut i: usize = from;
    while i < s.len() && space_byte(s[i])
        invariant
            from <= i <= s@.len(),
            skip_spaces(s@, from as int) == skip_spaces(s@, i as int),
        decreases s@.len() - i,
    {
        i = i + 1;
    }
    i
}

pub fn scan_word_at(s: &[u8], from: usize) -> (r: usize)
    requires
        from <= s@.len(),
    ensures
        r == scan_word(s@, from as int),
        from <= r <= s@.len(),
{
    let mut i: usize = from;
    while i < s.len() && word_byte(s[i])
        invariant
            from <= i <= s@.len(),
            scan_word(s@, from as int) == scan_word(s@, i as int),
        decreases s@.len() - i,
    {
        i = i + 1;
    }
    i
}

pub fn find_byte_at(s: &[u8], from: usize, b: u8) -> (r: usize)
    requires
        from <= s@.len(),
    ensures
        r == find_byte(s@, from as int, b),
        from <= r <= s@.len(),
{
    let mut i: usize = from;
    while i < s.len() && s[i] != b
        invariant
            from <= i <= s@.len(),
            find_byte(s@, from as int, b) == find_byte(s@, i as int, b),
        decreases s@.len() - i,
    {
        i = i + 1;
    }
    i
}

/// True when `pat` occurs in `s` starting at index `i`.
pub open spec fn sub_at(s: Seq<u8>, i: int, pat: Seq<u8>) -> bool {
    0 <= i && i + pat.len() <= s.len() && s.subrange(i, i + pat.len() as int) == pat
}

pub fn eq_at(s: &[u8], i: usize, pat: &[u8]) -> (r: bool)
    ensures
        r == sub_at(s@, i as int, pat@),
{
    if pat.len() > s.len() || i > s.len() - pat.len() {
        return false;
    }
    let mut j: usize = 0;
    while j < pat.len()
        invariant
            i + pat@.len() <= s@.len(),
            j <= pat@.len(),
            forall|k: int| 0 <= k < j ==> s@[i + k] == pat@[k],
        decreases pat@.len() - j,
    {
        let n = s.len();
        if s[i + j] != pat[j] {
            proof {
                assert(s@.subrange(i as int, i + pat@.len() as int)[j as int] == s@[i + j]);
            }
            return false;
        }
        j = j + 1;
    }
    proof {
        assert(s@.subrange(i as int, i + pat@.len() as int) =~= pat@);
    }
    true
}

pub fn bytes_eq(a: &[u8], b: &[u8]) -> (r: bool)
    ensures
        r == (a@ == b@),
{
    if a.len() != b.len() {
        return false;
    }
    let mut i: usize = 0;
    while i < a.len()
        invariant
            i <= a@.len(),
            a@.len() == b@.len(),
            forall|j: int| 0 <= j < i ==> a@[j] == b@[j],
        decreases a@.len() - i,
    {
        if a[i] != b[i] {
            return false;
        }
        i = i + 1;
    }
    proof {
        assert(a@ =~= b@);
    }
    true
}

/// Copies the bytes of `s` between `a` (inclusive) and `b` (exclusive).
pub fn sub_vec(s: &[u8], a: usize, b: usize) -> (v: Vec<u8>)
    requires
        a <= b <= s@.len(),
    ensures
        v@ == s@.subrange(a as int, b as int),
{
    let mut v: Vec<u8> = Vec::new();
    proof {
        assert(v@ =~= s@.subrange(a as int, a as int));
    }
    let mut i: usize = a;
    while i < b
        invariant
            a <= i <= b <= s@.len(),
            v@ == s@.subrange(a as int, i as int),
        decreases b - i,
    {
        v.push(s[i]);
        proof {
            assert(v@ =~= s@.subrange(a as int, i + 1 as int));
        }
        i = i + 1;
    }
    v
}

/// The first index at or after `i` where `pat` occurs in `s`, or -1 when
/// it does not occur there.
pub open spec fn find_sub_from(s: Seq<u8>, pat: Seq<u8>, i: int) -> int
    recommends
        0 <= i,
        pat.len() >= 1,
    decreases s.len() - i,
    when 0 <= i && pat.len() >= 1
{
    if i + pat.len() > s.len() {
        -1
    } else if sub_at(s, i, pat) {
        i
    } else {
        find_sub_from(s, pat, i + 1)
    }
}

pub proof fn lemma_find_sub_from(s: Seq<u8>, pat: Seq<u8>, i: int)
    requires
        0 <= i,
        pat.len() >= 1,
    ensures
        find_sub_from(s, pat, i) == -1 || (i <= find_sub_from(s, pat, i) && find_sub_from(
            s,
            pat,
            i,
        ) + pat.len() <= s.len() && sub_at(s, find_sub_from(s, pat, i), pat)),
        forall|j: int| i <= j < find_sub_from(s, pat, i) ==> !sub_at(s, j, pat),
        find_sub_from(s, pat, i) == -1 ==> forall|j: int| i <= j ==> !sub_at(s, j, pat),
    decreases s.len() - i,
{
    if i + pat.len() > s.len() {
    } else if sub_at(s, i, pat) {
    } else {
        lemma_find_sub_from(s, pat, i + 1);
    }
}

pub fn find_sub_at(s: &[u8], pat: &[u8], from: usize) -> (r: Option<usize>)
    requires
        pat@.len() >= 1,
    ensures
        match r {
            Some(p) => p == find_sub_from(s@, pat@, from as int) && from <= p && p + pat@.len()
                <= s@.len() && sub_at(s@, p as int, pat@),
            None => find_sub_from(s@, pat@, from as int) == -1,
        },
{
    let mut i: usize = from;
    while pat.len() <= s.len() && i <= s.len() - pat.len()
        invariant
            from <= i,
            find_sub_from(s@, pat@, from as int) == find_sub_from(s@, pat@, i as int),
            pat@.len() >= 1,
        decreases s@.len() - i,
    {
        if eq_at(s, i, pat) {
            return Some(i);
        }
        i = i + 1;
    }
    None
}

/// Splits `s` from index `i` on, at each occurrence of `sep`.
pub open spec fn split_on_from(s: Seq<u8>, sep: Seq<u8>, i: int) -> Seq<Seq<u8>>
    recommends
        0 <= i <= s.len(),
        sep.len() >= 1,
    decreases s.len() - i,
    when 0 <= i <= s.len() && sep.len() >= 1
{
    let p = find_sub_from(s, sep, i);
    if p < i || p + sep.len() > s.len() {
        seq![s.subrange(i, s.len() as int)]
    } else {
        seq![s.subrange(i, p)] + split_on_from(s, sep, p + sep.len())
    }
}

/// The pieces of `s` between occurrences of the separator `sep`.
pub open spec fn split_on(s: Seq<u8>, sep: Seq<u8>) -> Seq<Seq<u8>> {
    split_on_from(s, sep, 0)
}

pub fn split_all(s: &[u8], sep: &[u8]) -> (r: Vec<Vec<u8>>)
    requires
        sep@.len() >= 1,
    ensures
        r@.len() == split_on(s@, sep@).len(),
        forall|k: int| 0 <= k < r@.len() ==> #[trigger] r@[k]@ == split_on(s@, sep@)[k],
{
    let mut parts: Vec<Vec<u8>> = Vec::new();
    let mut i: usize = 0;
    loop
        invariant
            0 <= i <= s@.len(),
            sep@.len() >= 1,
            split_on(s@, sep@) == parts@.map_values(|v: Vec<u8>| v@) + split_on_from(
                s@,
                sep@,
                i as int,
            ),
        decreases s@.len() - i,
    {
        let ghost tail = split_on_from(s@, sep@, i as int);
        match find_sub_at(s, sep, i) {
            Some(p) => {
                proof {
                    lemma_find_sub_from(s@, sep@, i as int);
                    assert(tail == seq![s@.subrange(i as int, p as int)] + split_on_from(
                        s@,
                        sep@,
                        p + sep@.len(),
                    ));
                }
                let piece = sub_vec(s, i, p);
                parts.push(piece);
                proof {
                    assert(parts@.map_values(|v: Vec<u8>| v@) =~= parts@.drop_last().map_values(
                        |v: Vec<u8>| v@,
                    ).push(s@.subrange(i as int, p as int)));
                    assert(split_on(s@, sep@) == parts@.map_values(|v: Vec<u8>| v@)
                        + split_on_from(s@, sep@, p + sep@.len()));
                }
                let n = s.len();
                i = p + sep.len();
            },
            None => {
                proof {
                    assert(tail == seq![s@.subrange(i as int, s@.len() as int)]);
                }
                let piece = sub_vec(s, i, s.len());
                parts.push(piece);
                proof {
                    assert(parts@.map_values(|v: Vec<u8>| v@) =~= parts@.drop_last().map_values(
                        |v: Vec<u8>| v@,
                    ).push(s@.subrange(i as int, s@.len() as int)));
                    assert(split_on(s@, sep@) =~= parts@.map_values(|v: Vec<u8>| v@));
                }
                return parts;
            },
        }
    }
}

/// `s` with every carriage-return byte removed.
pub open spec fn remove_cr_spec(s: Seq<u8>) -> Seq<u8>
    decreases s.len(),
{
    if s.len() == 0 {
        Seq::empty()
    } else if s.last() == 13 {
        remove_cr_spec(s.drop_last())
    } else {
        remove_cr_spec(s.drop_last()).push(s.last())
    }
}

/// The first index at or before `j` such that every byte of `s` from there
/// up to `j` is whitespace.
pub open spec fn trim_end_idx(s: Seq<u8>, j: int) -> int
    recommends
        0 <= j <= s.len(),
    decreases j,
    when j <= s.len()
{
    if j <= 0 {
        0
    } else if is_space_byte(s[j - 1]) {
        trim_end_idx(s, j - 1)
    } else {
        j
    }
}

/// `s` with leading and trailing ASCII whitespace removed.
pub open spec fn trim_spec(s: Seq<u8>) -> Seq<u8> {
    let a = skip_spaces(s, 0);
    let b = trim_end_idx(s, s.len() as int);
    if a <= b {
        s.subrange(a, b)
    } else {
        Seq::empty()
    }
}

pub fn trim_bytes(s: &[u8]) -> (v: Vec<u8>)
    ensures
        v@ == trim_spec(s@),
{
    let a = skip_spaces_at(s, 0);
    let mut b: usize = s.len();
    while b > 0 && space_byte(s[b - 1])
        invariant
            0 <= b <= s@.len(),
            trim_end_idx(s@, s@.len() as int) == trim_end_idx(s@, b as int),
        decreases b,
    {
        b = b - 1;
    }
    if a <= b {
        sub_vec(s, a, b)
    } else {
        let v: Vec<u8> = Vec::new();
        proof {
            assert(v@ =~= Seq::<u8>::empty());
        }
        v
    }
}

} // verus!
