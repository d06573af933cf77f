//! The binary container parser: header validation, offset tables, string
//! slicing and decoding, and assembly of the catalog.
//!
//! The container starts with a 4-byte magic sequence (one form per byte
//! order), a packed major.minor revision, the entry count, and the
//! offsets of the original-strings and translated-strings tables; each
//! table holds one `(length, offset)` pair per entry.  The entry whose
//! decoded original string is empty is the header record: its translated
//! value is metadata, never a queryable message.  Parsing is
//! all-or-nothing: the first error aborts the whole construction.
//!
//! Strings are decoded as UTF-8.  A catalog (or an override) that
//! declares any charset other than UTF-8 or its ASCII subset is rejected
//! with an encoding error: transcoding other charsets is outside this
//! crate.
use vstd::prelude::*;

use vstd::slice::{slice_subrange, slice_to_vec};
use vstd::utf8::{decode_utf8, valid_utf8};

use crate::metadata::{charset_text, plural_text, spec_charset_text, spec_plural_text};
use crate::plurals::{compile_rule, spec_compile, spec_no_zero_divisor, Resolver};
use crate::strutil::{find_char, lemma_find_char, spec_eq_ci, spec_find_char};
use crate::{spec_insert, CatView, Catalog, Message, MsgModel};

verus! {

/// Why constructing a catalog failed.  Construction is all-or-nothing:
/// the first error encountered aborts the whole parse, and no partial
/// catalog is ever returned.
#[derive(Debug)]
pub enum Error {
    /// The buffer does not start with either recognized magic sequence.
    BadMagic,
    /// The packed revision field has a major version other than zero.
    UnsupportedRevision,
    /// A sequential read ran past the end of the buffer.
    TruncatedInput,
    /// An offset field references bytes outside the buffer.
    InvalidOffset,
    /// A string is not valid UTF-8, or the catalog declares a character
    /// set this reader does not decode.
    InvalidEncoding,
    /// The plural rule is malformed; `position` is a character offset
    /// into the rule text and `token` the text at the offending spot.
    SyntaxError { position: usize, token: String },
    /// The plural rule divides by the literal zero.
    DivisionByZero,
}

/// The variant of an [`Error`], with payloads stripped; the construction
/// contract pins errors down to this.
#[derive(Clone, Copy, Debug, PartialEq, Eq, Structural)]
pub enum FailKind {
    BadMagic,
    UnsupportedRevision,
    TruncatedInput,
    InvalidOffset,
    InvalidEncoding,
    Syntax,
    DivZero,
}

pub open spec fn spec_kind(e: Error) -> FailKind {
    match e {
        Error::BadMagic => FailKind::BadMagic,
        Error::UnsupportedRevision => FailKind::UnsupportedRevision,
        Error::TruncatedInput => FailKind::TruncatedInput,
        Error::InvalidOffset => FailKind::InvalidOffset,
        Error::InvalidEncoding => FailKind::InvalidEncoding,
        Error::SyntaxError { position: _, token: _ } => FailKind::Syntax,
        Error::DivisionByZero => FailKind::DivZero,
    }
}

/// The built-in plural rule: form 0 for a count of one, form 1 otherwise.
pub fn default_resolver(n: u64) -> (r: usize)
    ensures
        r == if n == 1 {
            0usize
        } else {
            1usize
        },
{
    if n == 1 {
        0
    } else {
        1
    }
}

/// The 32-bit word at byte offset `p`, little- or big-endian.
pub open spec fn spec_u32_at(b: Seq<u8>, p: int, le: bool) -> u32 {
    if le {
        (b[p] + b[p + 1] * 0x100 + b[p + 2] * 0x10000 + b[p + 3] * 0x1000000) as u32
    } else {
        (b[p + 3] + b[p + 2] * 0x100 + b[p + 1] * 0x10000 + b[p] * 0x1000000) as u32
    }
}

/// The little-endian magic sequence.
pub open spec fn spec_magic_le(b: Seq<u8>) -> bool {
    b.len() >= 4 && b[0] == 0xde && b[1] == 0x12 && b[2] == 0x04 && b[3] == 0x95
}

/// The big-endian magic sequence.
pub open spec fn spec_magic_be(b: Seq<u8>) -> bool {
    b.len() >= 4 && b[0] == 0x95 && b[1] == 0x04 && b[2] == 0x12 && b[3] == 0xde
}

/// The raw bytes of entry `i` of the `(length, offset)` table at `tab`:
/// reading the pair or the referenced range outside the buffer is an
/// offset error.
pub open spec fn spec_entry(b: Seq<u8>, le: bool, tab: int, i: int) -> Result<Seq<u8>, FailKind> {
    if tab + 8 * i + 8 > b.len() {
        Err(FailKind::InvalidOffset)
    } else {
        let l = spec_u32_at(b, tab + 8 * i, le) as int;
        let o = spec_u32_at(b, tab + 8 * i + 4, le) as int;
        if o + l > b.len() {
            Err(FailKind::InvalidOffset)
        } else {
            Ok(b.subrange(o, o + l))
        }
    }
}

/// The translated string split on the null byte into one-or-more forms.
pub open spec fn spec_split_forms(s: Seq<char>) -> Seq<Seq<char>>
    decreases s.len(),
{
    let k = spec_find_char(s, '\0');
    if !(0 <= k < s.len()) {
        seq![s]
    } else {
        seq![s.take(k)] + spec_split_forms(s.skip(k + 1))
    }
}

/// The message built from one decoded entry: the original string split
/// on the context separator if present (context left, id right), the
/// translated string split into forms.
pub open spec fn spec_msg_of(orig: Seq<char>, trans: Seq<char>) -> MsgModel {
    let k = spec_find_char(orig, '\x04');
    if !(0 <= k < orig.len()) {
        MsgModel { context: None, id: orig, forms: spec_split_forms(trans) }
    } else {
        MsgModel {
            context: Some(orig.take(k)),
            id: orig.skip(k + 1),
            forms: spec_split_forms(trans),
        }
    }
}

/// What one pass over the entries has produced so far: the queryable
/// messages, and the header record's metadata if it has been seen.
pub ghost struct ParsePass {
    pub msgs: Seq<MsgModel>,
    pub meta: Option<Seq<char>>,
}

/// Processes entry `j`: slice both tables, decode both strings as UTF-8,
/// route an empty original to the metadata, anything else into the
/// messages, overwriting an entry stored under the same key.
pub open spec fn spec_entry_step(
    b: Seq<u8>,
    le: bool,
    otab: int,
    ttab: int,
    j: int,
    st: ParsePass,
) -> Result<ParsePass, FailKind> {
    match spec_entry(b, le, otab, j) {
        Err(f) => Err(f),
        Ok(ob) => match spec_entry(b, le, ttab, j) {
            Err(f) => Err(f),
            Ok(tb) => if !valid_utf8(ob) || !valid_utf8(tb) {
                Err(FailKind::InvalidEncoding)
            } else {
                let orig = decode_utf8(ob);
                let trans = decode_utf8(tb);
                if orig.len() == 0 {
                    Ok(ParsePass { msgs: st.msgs, meta: Some(trans) })
                } else {
                    Ok(
                        ParsePass {
                            msgs: spec_insert(st.msgs, spec_msg_of(orig, trans)),
                            meta: st.meta,
                        },
                    )
                }
            },
        },
    }
}

/// The first `i` entries processed in order, or the first error.
pub open spec fn spec_entries(b: Seq<u8>, le: bool, otab: int, ttab: int, i: int) -> Result<
    ParsePass,
    FailKind,
>
    decreases i,
{
    if i <= 0 {
        Ok(ParsePass { msgs: Seq::empty(), meta: None })
    } else {
        match spec_entries(b, le, otab, ttab, i - 1) {
            Err(f) => Err(f),
            Ok(st) => spec_entry_step(b, le, otab, ttab, i - 1, st),
        }
    }
}

proof fn lemma_entries_err(b: Seq<u8>, le: bool, otab: int, ttab: int, i: int, j: int)
    requires
        0 <= i < j,
        spec_entries(b, le, otab, ttab, i) is Ok,
        spec_entry_step(b, le, otab, ttab, i, spec_entries(b, le, otab, ttab, i).unwrap()) is Err,
    ensures
        spec_entries(b, le, otab, ttab, j) == spec_entry_step(
            b,
            le,
            otab,
            ttab,
            i,
            spec_entries(b, le, otab, ttab, i).unwrap(),
        ),
    decreases j,
{
    if j > i + 1 {
        lemma_entries_err(b, le, otab, ttab, i, j - 1);
    }
}

/// The charset a catalog's strings are declared in: a caller-supplied
/// override, else the header's `Content-Type` charset, else none.
pub open spec fn spec_charset_of(meta: Option<Seq<char>>, over: Option<Seq<char>>) -> Option<
    Seq<char>,
> {
    match over {
        Some(e) => Some(e),
        None => match meta {
            Some(m) => spec_charset_text(m),
            None => None,
        },
    }
}

/// This reader decodes UTF-8 alone: a declared charset is accepted only
/// when it names UTF-8 or its ASCII subset, in any case.
pub open spec fn spec_charset_supported(cs: Option<Seq<char>>) -> bool {
    match cs {
        None => true,
        Some(c) => spec_eq_ci(c, "utf-8"@) || spec_eq_ci(c, "utf8"@) || spec_eq_ci(
            c,
            "us-ascii"@,
        ) || spec_eq_ci(c, "ascii"@),
    }
}

/// The resolver a parsed catalog ends up with: the compiled `Plural-Forms`
/// expression, or the built-in rule when plural parsing is disabled or the
/// header carries no rule text; a malformed rule is a construction error.
pub open spec fn spec_resolver_of(meta: Option<Seq<char>>, disable_plural: bool) -> Result<
    Resolver,
    FailKind,
> {
    if disable_plural {
        Ok(Resolver::Builtin)
    } else {
        match meta {
            None => Ok(Resolver::Builtin),
            Some(m) => match spec_plural_text(m) {
                None => Ok(Resolver::Builtin),
                Some(t) => match spec_compile(t) {
                    None => Err(FailKind::Syntax),
                    Some(a) => if spec_no_zero_divisor(a) {
                        Ok(Resolver::Expr(a))
                    } else {
                        Err(FailKind::DivZero)
                    },
                },
            },
        }
    }
}

/// What parsing a buffer yields: the catalog's entries and resolver, or
/// the first error encountered, in parse order.
pub open spec fn spec_parse(b: Seq<u8>, enc: Option<Seq<char>>, disable_plural: bool) -> Result<
    CatView,
    FailKind,
> {
    if !(spec_magic_le(b) || spec_magic_be(b)) {
        Err(FailKind::BadMagic)
    } else {
        let le = spec_magic_le(b);
        if b.len() < 28 {
            Err(FailKind::TruncatedInput)
        } else if spec_u32_at(b, 4, le) / 0x10000 != 0 {
            Err(FailKind::UnsupportedRevision)
        } else {
            let n = spec_u32_at(b, 8, le) as int;
            let otab = spec_u32_at(b, 12, le) as int;
            let ttab = spec_u32_at(b, 16, le) as int;
            match spec_entries(b, le, otab, ttab, n) {
                Err(f) => Err(f),
                Ok(st) => if !spec_charset_supported(spec_charset_of(st.meta, enc)) {
                    Err(FailKind::InvalidEncoding)
                } else {
                    match spec_resolver_of(st.meta, disable_plural) {
                        Err(f) => Err(f),
                        Ok(res) => Ok(CatView { msgs: st.msgs, resolver: res }),
                    }
                },
            }
        }
    }
}

fn byte_at(b: &[u8], i: usize) -> (r: u8)
    requires
        i < b@.len(),
    ensures
        r == b@[i as int],
{
    match b.get(i) {
        Some(x) => *x,
        None => {
            proof {
                assert(false);
            }
            0
        },
    }
}

fn read_u32(b: &[u8], p: usize, le: bool) -> (r: u32)
    requires
        p + 4 <= b@.len(),
    ensures
        r == spec_u32_at(b@, p as int, le),
{
    let blen: usize = b.len();
    let b0 = byte_at(b, p) as u32;
    let b1 = byte_at(b, p + 1) as u32;
    let b2 = byte_at(b, p + 2) as u32;
    let b3 = byte_at(b, p + 3) as u32;
    if le {
        b0 + b1 * 0x100 + b2 * 0x10000 + b3 * 0x1000000
    } else {
        b3 + b2 * 0x100 + b1 * 0x10000 + b0 * 0x1000000
    }
}

/// Relies on String::from_utf8: it succeeds exactly on the byte sequences
/// that are valid UTF-8, and decodes them to the characters they encode
/// (vstd's `valid_utf8` and `decode_utf8` model exactly that).
#[verifier::external_body]
fn decode_utf8_bytes(v: Vec<u8>) -> (r: Option<String>)
    ensures
        r is Some <==> valid_utf8(v@),
        r is Some ==> r.unwrap()@ == decode_utf8(v@),
{
    String::from_utf8(v).ok()
}

/// Reads entry `i` of the table at `tab` and slices the referenced bytes.
fn read_entry(b: &[u8], le: bool, tab: u32, i: u32) -> (r: Result<Vec<u8>, Error>)
    ensures
        match r {
            Ok(v) => spec_entry(b@, le, tab as int, i as int) == Ok::<Seq<u8>, FailKind>(v@),
            Err(e) => spec_entry(b@, le, tab as int, i as int) == Err::<Seq<u8>, FailKind>(
                spec_kind(e),
            ),
        },
{
    let len64: u64 = b.len() as u64;
    let pos: u64 = tab as u64 + 8 * (i as u64);
    if pos + 8 > len64 {
        return Err(Error::InvalidOffset);
    }
    let p: usize = pos as usize;
    let l = read_u32(b, p, le);
    let o = read_u32(b, p + 4, le);
    if o as u64 + l as u64 > len64 {
        return Err(Error::InvalidOffset);
    }
    Ok(slice_to_vec(slice_subrange(b, o as usize, o as usize + l as usize)))
}

/// Splits a decoded translated string on the null byte into its forms.
fn split_forms(s: &str) -> (r: Vec<String>)
    ensures
        r.deep_view() == spec_split_forms(s@),
    decreases s@.len(),
{
    match find_char(s, '\0') {
        None => {
            let mut v: Vec<String> = Vec::new();
            v.push(s.to_owned());
            proof {
                lemma_find_char(s@, '\0');
                assert(v.deep_view() =~= spec_split_forms(s@));
            }
            v
        },
        Some(k) => {
            proof {
                lemma_find_char(s@, '\0');
            }
            let slen: usize = s.unicode_len();
            let head = s.substring_char(0, k).to_owned();
            let mut rest = split_forms(s.substring_char(k + 1, slen));
            let mut v: Vec<String> = Vec::new();
            v.push(head);
            v.append(&mut rest);
            proof {
                assert(v.deep_view() =~= seq![s@.take(k as int)] + spec_split_forms(
                    s@.skip(k as int + 1),
                ));
            }
            v
        },
    }
}

/// Builds the message of one non-header entry from its decoded strings.
fn build_message(orig: &str, trans: &str) -> (m: Message)
    ensures
        m@ == spec_msg_of(orig@, trans@),
{
    let forms = split_forms(trans);
    match find_char(orig, '\x04') {
        Some(k) => {
            proof {
                lemma_find_char(orig@, '\x04');
            }
            let olen: usize = orig.unicode_len();
            Message {
                id: orig.substring_char(k + 1, olen).to_owned(),
                context: Some(orig.substring_char(0, k).to_owned()),
                translated: forms,
            }
        },
        None => Message { id: orig.to_owned(), context: None, translated: forms },
    }
}

fn charset_supported(cs: &str) -> (r: bool)
    ensures
        r == spec_charset_supported(Some(cs@)),
{
    crate::strutil::eq_ci(cs, "utf-8") || crate::strutil::eq_ci(cs, "utf8")
        || crate::strutil::eq_ci(cs, "us-ascii") || crate::strutil::eq_ci(cs, "ascii")
}

/// Configuration for parsing a catalog: an optional charset override for
/// the header's declared charset, and a switch that disables plural-rule
/// parsing (the catalog then uses the built-in rule).
#[derive(Debug)]
pub struct ParseOptions {
    pub force_encoding: Option<String>,
    pub disable_plural: bool,
}

impl ParseOptions {
    /// The charset override as a character sequence.
    pub open spec fn spec_enc(self) -> Option<Seq<char>> {
        match self.force_encoding {
            Some(e) => Some(e@),
            None => None,
        }
    }

    /// Default options: no charset override, plural rules parsed.
    pub fn new() -> (r: ParseOptions)
        ensures
            r.spec_enc() is None,
            !r.disable_plural,
    {
        ParseOptions { force_encoding: None, disable_plural: false }
    }

    /// Overrides the charset the catalog's header declares.
    pub fn force_encoding(self, enc: &str) -> (r: ParseOptions)
        ensures
            r.spec_enc() == Some(enc@),
            r.disable_plural == self.disable_plural,
    {
        ParseOptions { force_encoding: Some(enc.to_owned()), disable_plural: self.disable_plural }
    }

    /// Disables plural-rule parsing; the catalog uses the built-in rule.
    pub fn disable_plural_rules(self) -> (r: ParseOptions)
        ensures
            r.spec_enc() == self.spec_enc(),
            r.disable_plural,
    {
        ParseOptions { force_encoding: self.force_encoding, disable_plural: true }
    }

    /// Parses a catalog from a buffer with these options.
    pub fn parse(self, bytes: &[u8]) -> (r: Result<Catalog, Error>)
        ensures
            match r {
                Ok(cat) => spec_parse(bytes@, self.spec_enc(), self.disable_plural) == Ok::<
                    CatView,
                    FailKind,
                >(cat@) && cat.wf(),
                Err(e) => spec_parse(bytes@, self.spec_enc(), self.disable_plural) == Err::<
                    CatView,
                    FailKind,
                >(spec_kind(e)),
            },
    {
        parse_catalog(bytes, self)
    }
}

/// The metadata string as a character sequence.
pub open spec fn spec_meta_view(m: Option<String>) -> Option<Seq<char>> {
    match m {
        Some(s) => Some(s@),
        None => None,
    }
}

/// Processes one entry of the container into the catalog being built.
fn entry_step(
    bytes: &[u8],
    le: bool,
    otab: u32,
    ttab: u32,
    i: u32,
    cat: &mut Catalog,
    meta: &mut Option<String>,
) -> (r: Result<(), Error>)
    requires
        old(cat).wf(),
    ensures
        final(cat).wf(),
        final(cat)@.resolver == old(cat)@.resolver,
        match r {
            Ok(_) => spec_entry_step(
                bytes@,
                le,
                otab as int,
                ttab as int,
                i as int,
                (ParsePass { msgs: old(cat)@.msgs, meta: spec_meta_view(*old(meta)) }),
            ) == Ok::<ParsePass, FailKind>(
                (ParsePass { msgs: final(cat)@.msgs, meta: spec_meta_view(*final(meta)) }),
            ),
            Err(e) => spec_entry_step(
                bytes@,
                le,
                otab as int,
                ttab as int,
                i as int,
                (ParsePass { msgs: old(cat)@.msgs, meta: spec_meta_view(*old(meta)) }),
            ) == Err::<ParsePass, FailKind>(spec_kind(e)),
        },
{
    let ob = match read_entry(bytes, le, otab, i) {
        Ok(v) => v,
        Err(e) => {
            return Err(e);
        },
    };
    let tb = match read_entry(bytes, le, ttab, i) {
        Ok(v) => v,
        Err(e) => {
            return Err(e);
        },
    };
    let orig = match decode_utf8_bytes(ob) {
        Some(s) => s,
        None => {
            return Err(Error::InvalidEncoding);
        },
    };
    let trans = match decode_utf8_bytes(tb) {
        Some(s) => s,
        None => {
            return Err(Error::InvalidEncoding);
        },
    };
    if orig.as_str().is_empty() {
        *meta = Some(trans);
    } else {
        let m = build_message(orig.as_str(), trans.as_str());
        cat.insert(m);
    }
    Ok(())
}

/// Parses a gettext catalog out of the bytes of a binary MO container.
pub fn parse_catalog(bytes: &[u8], opts: ParseOptions) -> (r: Result<Catalog, Error>)
    ensures
        match r {
            Ok(cat) => spec_parse(bytes@, opts.spec_enc(), opts.disable_plural) == Ok::<
                CatView,
                FailKind,
            >(cat@) && cat.wf(),
            Err(e) => spec_parse(bytes@, opts.spec_enc(), opts.disable_plural) == Err::<
                CatView,
                FailKind,
            >(spec_kind(e)),
        },
{
    let blen: usize = bytes.len();
    if blen < 4 {
        return Err(Error::BadMagic);
    }
    let m0 = byte_at(bytes, 0);
    let m1 = byte_at(bytes, 1);
    let m2 = byte_at(bytes, 2);
    let m3 = byte_at(bytes, 3);
    let le: bool = m0 == 0xde && m1 == 0x12 && m2 == 0x04 && m3 == 0x95;
    let be: bool = m0 == 0x95 && m1 == 0x04 && m2 == 0x12 && m3 == 0xde;
    if !(le || be) {
        return Err(Error::BadMagic);
    }
    if blen < 28 {
        return Err(Error::TruncatedInput);
    }
    let rev = read_u32(bytes, 4, le);
    if rev / 0x10000 != 0 {
        return Err(Error::UnsupportedRevision);
    }
    let n = read_u32(bytes, 8, le);
    let otab = read_u32(bytes, 12, le);
    let ttab = read_u32(bytes, 16, le);
    let mut cat = Catalog::new();
    let mut meta: Option<String> = None;
    let mut i: u32 = 0;
    proof {
        assert(cat@.msgs =~= Seq::<MsgModel>::empty());
    }
    while i < n
        invariant
            i <= n,
            cat.wf(),
            cat@.resolver == Resolver::Builtin,
            spec_entries(bytes@, le, otab as int, ttab as int, i as int) == Ok::<
                ParsePass,
                FailKind,
            >((ParsePass { msgs: cat@.msgs, meta: spec_meta_view(meta) })),
            le == spec_magic_le(bytes@),
            le || be,
            be ==> spec_magic_be(bytes@),
            bytes@.len() >= 28,
            spec_u32_at(bytes@, 4, le) / 0x10000 == 0,
            n == spec_u32_at(bytes@, 8, le),
            otab == spec_u32_at(bytes@, 12, le),
            ttab == spec_u32_at(bytes@, 16, le),
        decreases n - i,
    {
        match entry_step(bytes, le, otab, ttab, i, &mut cat, &mut meta) {
            Ok(()) => {},
            Err(e) => {
                proof {
                    lemma_entries_err(bytes@, le, otab as int, ttab as int, i as int, n as int);
                    assert(spec_entries(bytes@, le, otab as int, ttab as int, n as int) == Err::<
                        ParsePass,
                        FailKind,
                    >(spec_kind(e)));
                }
                return Err(e);
            },
        }
        i += 1;
    }
    let enc_name: Option<String> = match opts.force_encoding {
        Some(e) => Some(e),
        None => match &meta {
            Some(m) => charset_text(m.as_str()),
            None => None,
        },
    };
    match &enc_name {
        None => {},
        Some(c) => {
            if !charset_supported(c.as_str()) {
                return Err(Error::InvalidEncoding);
            }
        },
    }
    if !opts.disable_plural {
        match &meta {
            None => {},
            Some(m) => {
                match plural_text(m.as_str()) {
                    None => {},
                    Some(t) => {
                        match compile_rule(t.as_str()) {
                            Ok(a) => {
                                cat.resolver = Resolver::Expr(a);
                            },
                            Err(e) => {
                                return Err(e);
                            },
                        }
                    },
                }
            },
        }
    }
    Ok(cat)
}

} // verus!
