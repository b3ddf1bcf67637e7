//! The option-record header grammar:
//!
//! ```text
//! <key> [<enum-or-list-spec>]? <<type-hint>>? (Default: <default-token>)? ( (unstable) )?
//! ```
//!
//! The grammar is a single named parsing function with an explicit model,
//! `parse_header_spec`, rather than an inlined pattern string.
use vstd::prelude::*;

use crate::text::{
    bytes_of_str, eq_at, find_byte, find_byte_at, lit_vec, scan_word, scan_word_at, skip_spaces,
    skip_spaces_at, sub_at, sub_vec,
};

verus! {

/// The literal that introduces a default-value token.
pub open spec fn default_marker() -> Seq<u8> {
    bytes_of_str("Default:"@)
}

/// The literal trailing marker that flags an option as unstable.
pub open spec fn unstable_suffix() -> Seq<u8> {
    bytes_of_str(" (unstable)"@)
}

/// Specification-level model of a parsed header line.
pub ghost struct HeaderV {
    pub key: Seq<u8>,
    pub bracket: Option<Seq<u8>>,
    pub type_hint: Option<Seq<u8>>,
    pub default: Option<Seq<u8>>,
    pub unstable: bool,
}

/// A parsed header line: the option key and the raw bracket, type-hint
/// and default tokens, still untyped.
#[derive(Debug, PartialEq)]
pub struct Header {
    pub key: Vec<u8>,
    pub bracket: Option<Vec<u8>>,
    pub type_hint: Option<Vec<u8>>,
    pub default: Option<Vec<u8>>,
    pub unstable: bool,
}

impl View for Header {
    type V = HeaderV;

    open spec fn view(&self) -> HeaderV {
        HeaderV {
            key: self.key@,
            bracket: match self.bracket {
                Some(ref b) => Some(b@),
                None => None,
            },
            type_hint: match self.type_hint {
                Some(ref t) => Some(t@),
                None => None,
            },
            default: match self.default {
                Some(d) => Some(d@),
                None => None,
            },
            unstable: self.unstable,
        }
    }
}

/// What may follow the key and its optional segments from position `i`:
/// an optional `Default:` token, then an optional trailing unstable
/// marker, then the end of the line.
pub open spec fn parse_tail(
    s: Seq<u8>,
    i: int,
    key: Seq<u8>,
    bracket: Option<Seq<u8>>,
    type_hint: Option<Seq<u8>>,
) -> Option<HeaderV>
    recommends
        0 <= i <= s.len(),
{
    let k = skip_spaces(s, i);
    if sub_at(s, k, default_marker()) {
        let m = skip_spaces(s, k + default_marker().len());
        let rest = s.subrange(m, s.len() as int);
        if rest.len() >= unstable_suffix().len() && rest.subrange(
            rest.len() - unstable_suffix().len(),
            rest.len() as int,
        ) == unstable_suffix() {
            Some(
                HeaderV {
                    key,
                    bracket,
                    type_hint,
                    default: Some(rest.take(rest.len() - unstable_suffix().len())),
                    unstable: true,
                },
            )
        } else {
            Some(HeaderV { key, bracket, type_hint, default: Some(rest), unstable: false })
        }
    } else if i == s.len() {
        Some(HeaderV { key, bracket, type_hint, default: None, unstable: false })
    } else if s.subrange(i, s.len() as int) == unstable_suffix() {
        Some(HeaderV { key, bracket, type_hint, default: None, unstable: true })
    } else {
        None
    }
}

/// The optional angle-bracketed type hint at position `i`, then the tail.
pub open spec fn parse_angle(s: Seq<u8>, i: int, key: Seq<u8>, bracket: Option<Seq<u8>>) -> Option<
    HeaderV,
>
    recommends
        0 <= i <= s.len(),
{
    if i < s.len() && s[i] == 60 {
        let ae = find_byte(s, i + 1, 62);
        if ae >= s.len() {
            None
        } else {
            parse_tail(s, ae + 1, key, bracket, Some(s.subrange(i + 1, ae)))
        }
    } else {
        parse_tail(s, i, key, bracket, None)
    }
}

/// The whole header grammar: a nonempty run of word bytes (the key),
/// at least one whitespace byte, an optional `[...]` segment, an optional
/// `<...>` segment, an optional `Default:` token and an optional trailing
/// ` (unstable)` marker. `None` when the line matches no branch.
pub open spec fn parse_header_spec(s: Seq<u8>) -> Option<HeaderV> {
    let ke = scan_word(s, 0);
    if ke == 0 {
        None
    } else {
        let ws = skip_spaces(s, ke);
        if ws == ke {
            None
        } else {
            let key = s.take(ke);
            if ws < s.len() && s[ws] == 91 {
                let be = find_byte(s, ws + 1, 93);
                if be >= s.len() {
                    None
                } else {
                    parse_angle(s, be + 1, key, Some(s.subrange(ws + 1, be)))
                }
            } else {
                parse_angle(s, ws, key, None)
            }
        }
    }
}

/// Parses a header line against the record grammar, exactly as
/// `parse_header_spec` states; `None` is a grammar mismatch.
#[verifier::loop_isolation(false)]
pub fn parse_header(s: &[u8]) -> (r: Option<Header>)
    ensures
        match r {
            Some(h) => parse_header_spec(s@) == Some(h@),
            None => parse_header_spec(s@) == None::<HeaderV>,
        },
{
    let ke = scan_word_at(s, 0);
    if ke == 0 {
        return None;
    }
    let ws = skip_spaces_at(s, ke);
    if ws == ke {
        return None;
    }
    let key = sub_vec(s, 0, ke);
    let mut bracket: Option<Vec<u8>> = None;
    let mut i: usize = ws;
    if ws < s.len() && s[ws] == 91 {
        let be = find_byte_at(s, ws + 1, 93);
        if be >= s.len() {
            return None;
        }
        bracket = Some(sub_vec(s, ws + 1, be));
        i = be + 1;
    }
    let ghost bracket_v = match bracket {
        Some(ref b) => Some(b@),
        None => None,
    };
    let mut type_hint: Option<Vec<u8>> = None;
    if i < s.len() && s[i] == 60 {
        let ae = find_byte_at(s, i + 1, 62);
        if ae >= s.len() {
            return None;
        }
        type_hint = Some(sub_vec(s, i + 1, ae));
        i = ae + 1;
    }
    let ghost type_hint_v = match type_hint {
        Some(ref t) => Some(t@),
        None => None,
    };
    let ghost tail = parse_tail(s@, i as int, s@.take(ke as int), bracket_v, type_hint_v);
    proof {
        assert(parse_header_spec(s@) == tail);
        reveal_strlit("Default:");
        reveal_strlit(" (unstable)");
    }
    let marker = lit_vec("Default:");
    let suffix = lit_vec(" (unstable)");
    let k = skip_spaces_at(s, i);
    if eq_at(s, k, marker.as_slice()) {
        let m = skip_spaces_at(s, k + marker.len());
        let ghost rest = s@.subrange(m as int, s@.len() as int);
        if s.len() - m >= suffix.len() && eq_at(s, s.len() - suffix.len(), suffix.as_slice()) {
            proof {
                assert(rest.subrange(
                    rest.len() - unstable_suffix().len(),
                    rest.len() as int,
                ) =~= s@.subrange(s@.len() - unstable_suffix().len(), s@.len() as int));
                assert(rest.take(rest.len() - unstable_suffix().len()) =~= s@.subrange(
                    m as int,
                    s@.len() - unstable_suffix().len(),
                ));
            }
            let dft = sub_vec(s, m, s.len() - suffix.len());
            Some(Header { key, bracket, type_hint, default: Some(dft), unstable: true })
        } else {
            proof {
                if rest.len() >= unstable_suffix().len() {
                    assert(rest.subrange(
                        rest.len() - unstable_suffix().len(),
                        rest.len() as int,
                    ) =~= s@.subrange(s@.len() - unstable_suffix().len(), s@.len() as int));
                }
            }
            let dft = sub_vec(s, m, s.len());
            proof {
                assert(dft@ =~= rest);
            }
            Some(Header { key, bracket, type_hint, default: Some(dft), unstable: false })
        }
    } else if i == s.len() {
        Some(Header { key, bracket, type_hint, default: None, unstable: false })
    } else if s.len() - i == suffix.len() && eq_at(s, i, suffix.as_slice()) {
        proof {
            assert(s@.subrange(i as int, s@.len() as int) =~= unstable_suffix());
        }
        Some(Header { key, bracket, type_hint, default: None, unstable: true })
    } else {
        proof {
            if s@.subrange(i as int, s@.len() as int) == unstable_suffix() {
                assert(sub_at(s@, i as int, unstable_suffix()));
            }
        }
        None
    }
}

} // verus!
