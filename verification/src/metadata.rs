//! Best-effort extraction from the catalog's header record: the record is
//! split into `Key: Value` lines, keys are looked up without regard to
//! ASCII case, and the plural-rule text and optional charset are pulled
//! out of the `Plural-Forms` and `Content-Type` values.  Malformed or
//! unrecognized lines are silently ignored; extraction never fails.
use vstd::prelude::*;

use crate::strutil::{
    eq_ci, find_char, find_sub, spec_eq_ci, spec_find_char, spec_find_sub, spec_trim, trim,
};
use crate::strutil::{lemma_find_char, lemma_find_sub};

verus! {

/// The value of the first `Key: Value` line whose key, trimmed and
/// compared without regard to ASCII case, equals `key`; values are
/// trimmed too.  A line without a colon-space separator never matches.
pub open spec fn spec_line_value(line: Seq<char>, key: Seq<char>) -> Option<Seq<char>> {
    let k = spec_find_sub(line, seq![':', ' ']);
    if k < 0 {
        None
    } else {
        let lkey = spec_trim(line.take(k));
        let lval = spec_trim(line.skip(k + 2));
        if spec_eq_ci(lkey, key) {
            Some(lval)
        } else {
            None
        }
    }
}

/// Looks `key` up among the newline-separated lines of the header record.
pub open spec fn spec_meta_lookup(s: Seq<char>, key: Seq<char>) -> Option<Seq<char>>
    decreases s.len(),
{
    let nl = spec_find_char(s, '\n');
    if !(0 <= nl < s.len()) {
        spec_line_value(s, key)
    } else {
        match spec_line_value(s.take(nl), key) {
            Some(v) => Some(v),
            None => spec_meta_lookup(s.skip(nl + 1), key),
        }
    }
}

/// The text between `plural=` and the next `;` inside the `Plural-Forms`
/// value, trimmed; `None` when the header, the line or the text is
/// absent, or the text is empty.
pub open spec fn spec_plural_text(meta: Seq<char>) -> Option<Seq<char>> {
    match spec_meta_lookup(meta, "plural-forms"@) {
        None => None,
        Some(v) => {
            let k = spec_find_sub(v, "plural="@);
            if k < 0 {
                None
            } else {
                let after = v.skip(k + 7);
                let e = spec_find_char(after, ';');
                let t = spec_trim(
                    if 0 <= e < after.len() {
                        after.take(e)
                    } else {
                        after
                    },
                );
                if t.len() == 0 {
                    None
                } else {
                    Some(t)
                }
            }
        },
    }
}

/// The charset name after `charset=` inside the `Content-Type` value,
/// trimmed; `None` when absent or empty.
pub open spec fn spec_charset_text(meta: Seq<char>) -> Option<Seq<char>> {
    match spec_meta_lookup(meta, "content-type"@) {
        None => None,
        Some(v) => {
            let k = spec_find_sub(v, "charset="@);
            if k < 0 {
                None
            } else {
                let after = v.skip(k + 8);
                let e = spec_find_char(after, ';');
                let t = spec_trim(
                    if 0 <= e < after.len() {
                        after.take(e)
                    } else {
                        after
                    },
                );
                if t.len() == 0 {
                    None
                } else {
                    Some(t)
                }
            }
        },
    }
}

fn line_value(line: &str, key: &str) -> (r: Option<String>)
    ensures
        match r {
            Some(v) => spec_line_value(line@, key@) == Some(v@),
            None => spec_line_value(line@, key@) is None,
        },
{
    proof {
        reveal_strlit(": ");
        assert(": "@ =~= seq![':', ' ']);
    }
    match find_sub(line, ": ") {
        None => None,
        Some(k) => {
            proof {
                lemma_find_sub(line@, ": "@);
            }
            let llen: usize = line.unicode_len();
            let lkey = trim(line.substring_char(0, k));
            let lval = trim(line.substring_char(k + 2, llen));
            proof {
                assert(line@.subrange(0, k as int) =~= line@.take(k as int));
                assert(line@.subrange(k as int + 2, line@.len() as int) =~= line@.skip(
                    k as int + 2,
                ));
            }
            if eq_ci(lkey.as_str(), key) {
                Some(lval)
            } else {
                None
            }
        },
    }
}

/// Looks a key up among the header's lines; see `spec_meta_lookup`.
pub fn meta_lookup(s: &str, key: &str) -> (r: Option<String>)
    ensures
        match r {
            Some(v) => spec_meta_lookup(s@, key@) == Some(v@),
            None => spec_meta_lookup(s@, key@) is None,
        },
    decreases s@.len(),
{
    match find_char(s, '\n') {
        None => line_value(s, key),
        Some(nl) => {
            proof {
                lemma_find_char(s@, '\n');
            }
            let line = s.substring_char(0, nl);
            proof {
                assert(line@ =~= s@.take(nl as int));
            }
            match line_value(line, key) {
                Some(v) => Some(v),
                None => {
                    let slen: usize = s.unicode_len();
                    let rest = s.substring_char(nl + 1, slen);
                    proof {
                        assert(rest@ =~= s@.skip(nl as int + 1));
                    }
                    meta_lookup(rest, key)
                },
            }
        },
    }
}

fn value_field(v: &str, pat: &str, patlen: usize) -> (r: Option<String>)
    requires
        pat@.len() == patlen,
    ensures
        ({
            let k = spec_find_sub(v@, pat@);
            match r {
                Some(t) => k >= 0 && ({
                    let after = v@.skip(k + patlen as int);
                    let e = spec_find_char(after, ';');
                    let tt = spec_trim(
                        if 0 <= e < after.len() {
                            after.take(e)
                        } else {
                            after
                        },
                    );
                    tt.len() > 0 && t@ == tt
                }),
                None => k < 0 || ({
                    let after = v@.skip(k + patlen as int);
                    let e = spec_find_char(after, ';');
                    spec_trim(
                        if 0 <= e < after.len() {
                            after.take(e)
                        } else {
                            after
                        },
                    ).len() == 0
                }),
            }
        }),
{
    match find_sub(v, pat) {
        None => None,
        Some(k) => {
            proof {
                lemma_find_sub(v@, pat@);
            }
            let vlen: usize = v.unicode_len();
            let after = v.substring_char(k + patlen, vlen);
            proof {
                assert(after@ =~= v@.skip(k as int + patlen as int));
            }
            let cut: &str = match find_char(after, ';') {
                None => after,
                Some(e) => {
                    proof {
                        lemma_find_char(after@, ';');
                    }
                    after.substring_char(0, e)
                },
            };
            proof {
                let e = spec_find_char(after@, ';');
                if 0 <= e < after@.len() {
                    assert(cut@ =~= after@.take(e));
                }
            }
            let t = trim(cut);
            if t.as_str().is_empty() {
                None
            } else {
                Some(t)
            }
        },
    }
}

/// Extracts the plural-rule text from the header record; see
/// `spec_plural_text`.
pub fn plural_text(meta: &str) -> (r: Option<String>)
    ensures
        match r {
            Some(v) => spec_plural_text(meta@) == Some(v@),
            None => spec_plural_text(meta@) is None,
        },
{
    match meta_lookup(meta, "plural-forms") {
        None => None,
        Some(v) => {
            proof {
                reveal_strlit("plural=");
                assert("plural="@.len() == 7);
            }
            value_field(v.as_str(), "plural=", 7)
        },
    }
}

/// Extracts the declared charset from the header record; see
/// `spec_charset_text`.
pub fn charset_text(meta: &str) -> (r: Option<String>)
    ensures
        match r {
            Some(v) => spec_charset_text(meta@) == Some(v@),
            None => spec_charset_text(meta@) is None,
        },
{
    match meta_lookup(meta, "content-type") {
        None => None,
        Some(v) => {
            proof {
                reveal_strlit("charset=");
                assert("charset="@.len() == 8);
            }
            value_field(v.as_str(), "charset=", 8)
        },
    }
}

} // verus!
