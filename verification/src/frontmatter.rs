//! The authored-card text format.
//!
//! A card is authored as free text that opens with a header block fenced by
//! lines holding `---`; inside the fence, each line of the form `key: value`
//! contributes one header field.  A card is valid only when both `title` and
//! `deck` are present and non-blank; everything, header included, is kept as
//! the card's description.

use vstd::prelude::*;
use vstd::string::StrSliceExecFns;

use crate::error::ReviseError;
use crate::strutil::str_eq;
use crate::strutil::trim;
use crate::strutil::trimmed;

verus! {

/// Index of the first occurrence of `c` in `s`; `s.len()` when absent.
pub open spec fn first_in(s: Seq<char>, c: char) -> int
    decreases s.len(),
{
    if s.len() == 0 {
        0
    } else if s[0] == c {
        0
    } else {
        1 + first_in(s.drop_first(), c)
    }
}

pub proof fn lemma_first_in(s: Seq<char>, c: char)
    ensures
        0 <= first_in(s, c) <= s.len(),
        forall|k: int| 0 <= k < first_in(s, c) ==> s[k] != c,
        first_in(s, c) < s.len() ==> s[first_in(s, c)] == c,
    decreases s.len(),
{
    if s.len() > 0 && s[0] != c {
        lemma_first_in(s.drop_first(), c);
        assert(forall|k: int| 1 <= k < s.len() ==> s[k] == s.drop_first()[k - 1]);
    }
}

/// The header fields of authored text, in reading order: lines are split at
/// newlines, a line that trims to `---` toggles the header block, and inside
/// the block each line with a colon yields its trimmed key and value.
pub open spec fn fm_pairs(s: Seq<char>, inside: bool) -> Seq<(Seq<char>, Seq<char>)>
    decreases s.len(),
    via fm_pairs_dec
{
    if s.len() == 0 {
        Seq::empty()
    } else {
        let nl = first_in(s, '\n');
        let line = s.subrange(0, nl);
        let rest = if nl < s.len() {
            s.subrange(nl + 1, s.len() as int)
        } else {
            Seq::empty()
        };
        if trimmed(line) == "---"@ {
            fm_pairs(rest, !inside)
        } else if inside {
            let c = first_in(line, ':');
            if c < line.len() {
                seq![
                    (trimmed(line.subrange(0, c)), trimmed(line.subrange(c + 1, line.len() as int))),
                ] + fm_pairs(rest, inside)
            } else {
                fm_pairs(rest, inside)
            }
        } else {
            fm_pairs(rest, inside)
        }
    }
}

#[via_fn]
proof fn fm_pairs_dec(s: Seq<char>, inside: bool) {
    lemma_first_in(s, '\n');
}

/// The value of a header field; the last occurrence of a key wins.
pub open spec fn fm_lookup(pairs: Seq<(Seq<char>, Seq<char>)>, key: Seq<char>) -> Option<
    Seq<char>,
>
    decreases pairs.len(),
{
    if pairs.len() == 0 {
        None
    } else if pairs.last().0 == key {
        Some(pairs.last().1)
    } else {
        fm_lookup(pairs.drop_last(), key)
    }
}

/// The `title` and `deck` of authored text, when both are present and
/// non-blank.
pub open spec fn authored_fields(s: Seq<char>) -> Option<(Seq<char>, Seq<char>)> {
    let pairs = fm_pairs(s, false);
    match (fm_lookup(pairs, "title"@), fm_lookup(pairs, "deck"@)) {
        (Some(t), Some(d)) => if t.len() > 0 && d.len() > 0 {
            Some((t, d))
        } else {
            None
        },
        _ => None,
    }
}

/// Parses the header fields out of authored text.
pub fn parse_yaml_frontmatter(s: &str) -> (r: Vec<(String, String)>)
    ensures
        r.deep_view() == fm_pairs(s@, false),
{
    let len = s.unicode_len();
    let mut out: Vec<(String, String)> = Vec::new();
    let mut pos: usize = 0;
    let mut inside: bool = false;
    proof {
        assert(s@.subrange(0, len as int) =~= s@);
        assert(out.deep_view() + fm_pairs(s@, false) =~= fm_pairs(s@, false));
    }
    while pos < len
        invariant
            pos <= len,
            len == s@.len(),
            out.deep_view() + fm_pairs(s@.subrange(pos as int, len as int), inside) == fm_pairs(
                s@,
                false,
            ),
        decreases len - pos,
    {
        let ghost rem = s@.subrange(pos as int, len as int);
        proof {
            lemma_first_in(rem, '\n');
        }
        let nl = match crate::strutil::find_char(s, pos, '\n') {
            Some(i) => i,
            None => len,
        };
        proof {
            assert(forall|k: int| 0 <= k < rem.len() ==> rem[k] == s@[pos + k]);
            assert(first_in(rem, '\n') == nl - pos) by {
                let f = first_in(rem, '\n');
                if f < nl - pos {
                    assert(s@[pos + f] == '\n');
                }
                if nl - pos < f {
                    assert(rem[nl - pos] == '\n');
                }
            }
        }
        let line = s.substring_char(pos, nl);
        proof {
            assert(line@ =~= rem.subrange(0, first_in(rem, '\n')));
        }
        let line_trim = trim(line);
        let ghost next_rem = if nl < len {
            s@.subrange(nl as int + 1, len as int)
        } else {
            Seq::<char>::empty()
        };
        proof {
            if nl < len {
                assert(next_rem =~= rem.subrange(first_in(rem, '\n') + 1, rem.len() as int));
            }
        }
        if str_eq(line_trim, "---") {
            inside = !inside;
        } else if inside {
            proof {
                lemma_first_in(line@, ':');
            }
            let llen = line.unicode_len();
            match crate::strutil::find_char(line, 0, ':') {
                Some(c) => {
                    proof {
                        assert(first_in(line@, ':') == c) by {
                            let f = first_in(line@, ':');
                            if f < c {
                                assert(line@[f] == ':');
                            }
                            if c < f {
                                assert(line@[c as int] == ':');
                            }
                        }
                    }
                    let key = trim(line.substring_char(0, c));
                    let val = trim(line.substring_char(c + 1, llen));
                    proof {
                        assert(line@.subrange(0, c as int) =~= line@.subrange(
                            0,
                            first_in(line@, ':'),
                        ));
                        assert(key@ == trimmed(line@.subrange(0, first_in(line@, ':'))));
                        assert(val@ == trimmed(
                            line@.subrange(first_in(line@, ':') + 1, line@.len() as int),
                        ));
                    }
                    let ghost out0 = out.deep_view();
                    out.push((key.to_owned(), val.to_owned()));
                    proof {
                        assert(out.deep_view() =~= out0.push((key@, val@)));
                    }
                },
                None => {},
            }
        }
        proof {
            assert(out.deep_view() + fm_pairs(next_rem, inside) =~= fm_pairs(s@, false));
        }
        if nl < len {
            pos = nl + 1;
        } else {
            pos = len;
        }
    }
    proof {
        assert(s@.subrange(len as int, len as int) =~= Seq::<char>::empty());
        assert(out.deep_view() =~= fm_pairs(s@, false));
    }
    out
}

/// The value of a header field among parsed pairs; the last occurrence wins.
pub fn fm_get(pairs: &Vec<(String, String)>, key: &str) -> (r: Option<String>)
    ensures
        match r {
            Some(v) => fm_lookup(pairs.deep_view(), key@) == Some(v@),
            None => fm_lookup(pairs.deep_view(), key@) is None,
        },
{
    let mut found: Option<&String> = None;
    let mut i: usize = 0;
    while i < pairs.len()
        invariant
            i <= pairs.len(),
            match found {
                Some(v) => fm_lookup(pairs.deep_view().subrange(0, i as int), key@) == Some(v@),
                None => fm_lookup(pairs.deep_view().subrange(0, i as int), key@) is None,
            },
        decreases pairs.len() - i,
    {
        proof {
            assert(pairs.deep_view().subrange(0, i as int + 1).drop_last() =~= pairs.deep_view()
                .subrange(0, i as int));
            assert(pairs.deep_view().subrange(0, i as int + 1).last() == pairs.deep_view()[i as int]);
        }
        if str_eq(pairs[i].0.as_str(), key) {
            found = Some(&pairs[i].1);
        }
        i = i + 1;
    }
    proof {
        assert(pairs.deep_view().subrange(0, pairs.deep_view().len() as int) =~= pairs.deep_view());
    }
    match found {
        Some(v) => Some(v.clone()),
        None => None,
    }
}

/// Validates authored text: returns its trimmed `title` and `deck` when both
/// are present and non-blank, and `ValidationFailure` otherwise.
pub fn validate_authored(s: &str) -> (r: Result<(String, String), ReviseError>)
    ensures
        r is Ok <==> authored_fields(s@) is Some,
        r matches Ok(td) ==> authored_fields(s@) == Some((td.0@, td.1@)),
        r matches Err(e) ==> e == ReviseError::ValidationFailure,
{
    let pairs = parse_yaml_frontmatter(s);
    let title = match fm_get(&pairs, "title") {
        Some(t) => t,
        None => {
            return Err(ReviseError::ValidationFailure);
        },
    };
    let deck = match fm_get(&pairs, "deck") {
        Some(d) => d,
        None => {
            return Err(ReviseError::ValidationFailure);
        },
    };
    if title.as_str().unicode_len() == 0 || deck.as_str().unicode_len() == 0 {
        return Err(ReviseError::ValidationFailure);
    }
    Ok((title, deck))
}

} // verus!
