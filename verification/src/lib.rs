//! A verified reader for GNU MO translation catalogs.
//!
//! The crate parses a compact binary translation-catalog container into an
//! in-memory [`Catalog`] and answers lookups by message id, optional
//! disambiguating context, and item count.  Which translated form a count
//! selects is decided by a per-catalog rule compiled from the catalog's
//! `Plural-Forms` header.
//!
//! The choice of catalog is made explicitly by the caller: the crate holds
//! no global locale state and enforces no directory layout.  Obtaining the
//! bytes of a catalog (from a file, the network, or anywhere else) is the
//! caller's business; construction starts from a byte buffer.
#![allow(unused_imports)]

use vstd::prelude::*;

pub mod metadata;
pub mod parser;
pub mod plurals;
pub mod strutil;

pub use parser::{default_resolver, parse_catalog, Error, FailKind, ParseOptions};
pub use plurals::{compile_rule, eval, Ast, BinOp, Resolver};

verus! {

/// The context separator inside composite catalog keys: the ASCII "end of
/// transmission" byte, which occurs in neither a context nor an id.
pub open spec fn spec_key_of(context: Seq<char>, id: Seq<char>) -> Seq<char> {
    context + seq!['\x04'] + id
}

/// The mathematical content of one catalog entry.
pub ghost struct MsgModel {
    pub context: Option<Seq<char>>,
    pub id: Seq<char>,
    pub forms: Seq<Seq<char>>,
}

impl MsgModel {
    /// The key under which the catalog stores this entry: the id alone, or
    /// context, separator, id when a context is present.
    pub open spec fn key(self) -> Seq<char> {
        match self.context {
            Some(c) => spec_key_of(c, self.id),
            None => self.id,
        }
    }
}

/// One translatable unit: an id, an optional disambiguating context, and
/// the ordered translated forms (index 0 is the singular/default form).
/// Created during parsing and never mutated afterwards.
#[derive(Clone, Debug)]
pub struct Message {
    pub id: String,
    pub context: Option<String>,
    pub translated: Vec<String>,
}

impl View for Message {
    type V = MsgModel;

    open spec fn view(&self) -> MsgModel {
        MsgModel {
            context: match self.context {
                Some(c) => Some(c@),
                None => None,
            },
            id: self.id@,
            forms: self.translated.deep_view(),
        }
    }
}

impl Message {
    /// Builds a message from an id, an optional context and its translated
    /// forms.
    pub fn new(id: &str, context: Option<&str>, translated: Vec<&str>) -> (r: Message)
        ensures
            r@ == (MsgModel {
                context: match context {
                    Some(c) => Some(c@),
                    None => None,
                },
                id: id@,
                forms: translated.deep_view(),
            }),
    {
        let mut forms: Vec<String> = Vec::new();
        let mut k: usize = 0;
        while k < translated.len()
            invariant
                k <= translated@.len(),
                forms@.len() == k,
                forall|j: int| 0 <= j < k ==> forms@[j]@ == translated@[j]@,
            decreases translated@.len() - k,
        {
            forms.push(translated[k].to_owned());
            k += 1;
        }
        let r = Message {
            id: id.to_owned(),
            context: match context {
                Some(c) => Some(c.to_owned()),
                None => None,
            },
            translated: forms,
        };
        proof {
            assert(forms.deep_view() =~= translated.deep_view());
        }
        r
    }

    /// The translated form at `form_no`, if the message has that many forms.
    pub fn get_translated(&self, form_no: usize) -> (r: Option<&str>)
        ensures
            match r {
                Some(s) => form_no < self@.forms.len() && s@ == self@.forms[form_no as int],
                None => form_no >= self@.forms.len(),
            },
    {
        if form_no < self.translated.len() {
            Some(self.translated[form_no].as_str())
        } else {
            None
        }
    }
}

/// Joins a context and an id into the composite catalog key.
pub fn key_with_context(context: &str, key: &str) -> (r: String)
    ensures
        r@ == spec_key_of(context@, key@),
{
    let mut result = context.to_owned();
    result.append("\x04");
    result.append(key);
    proof {
        reveal_strlit("\x04");
        assert(result@ =~= spec_key_of(context@, key@));
    }
    result
}

/// The first entry in `msgs` stored under `key`, if any.  Catalogs keep
/// their keys unique, so this is the entry under that key.
pub open spec fn spec_find(msgs: Seq<MsgModel>, key: Seq<char>) -> Option<MsgModel>
    decreases msgs.len(),
{
    if msgs.len() == 0 {
        None
    } else if msgs[0].key() == key {
        Some(msgs[0])
    } else {
        spec_find(msgs.drop_first(), key)
    }
}

proof fn lemma_spec_find_at(msgs: Seq<MsgModel>, key: Seq<char>, i: int)
    requires
        0 <= i < msgs.len(),
        msgs[i].key() == key,
        forall|j: int| 0 <= j < i ==> (#[trigger] msgs[j]).key() != key,
    ensures
        spec_find(msgs, key) == Some(msgs[i]),
    decreases i,
{
    if i > 0 {
        assert forall|j: int| 0 <= j < i - 1 implies (#[trigger] msgs.drop_first()[j]).key()
            != key by {
            assert(msgs.drop_first()[j] == msgs[j + 1]);
        }
        lemma_spec_find_at(msgs.drop_first(), key, i - 1);
    }
}

proof fn lemma_spec_find_none(msgs: Seq<MsgModel>, key: Seq<char>)
    requires
        forall|j: int| 0 <= j < msgs.len() ==> (#[trigger] msgs[j]).key() != key,
    ensures
        spec_find(msgs, key) is None,
    decreases msgs.len(),
{
    if msgs.len() > 0 {
        assert forall|j: int| 0 <= j < msgs.drop_first().len() implies (
        #[trigger] msgs.drop_first()[j]).key() != key by {
            assert(msgs.drop_first()[j] == msgs[j + 1]);
        }
        lemma_spec_find_none(msgs.drop_first(), key);
    }
}

/// Entries after storing `m`: the entry under the same key is replaced
/// in place; without one, `m` is appended.
pub open spec fn spec_insert(msgs: Seq<MsgModel>, m: MsgModel) -> Seq<MsgModel>
    decreases msgs.len(),
{
    if msgs.len() == 0 {
        seq![m]
    } else if msgs[0].key() == m.key() {
        seq![m] + msgs.drop_first()
    } else {
        seq![msgs[0]] + spec_insert(msgs.drop_first(), m)
    }
}

proof fn lemma_insert_update(s: Seq<MsgModel>, i: int, m: MsgModel)
    requires
        0 <= i < s.len(),
        s[i].key() == m.key(),
        forall|j: int| 0 <= j < i ==> (#[trigger] s[j]).key() != m.key(),
    ensures
        spec_insert(s, m) == s.update(i, m),
    decreases i,
{
    if i == 0 {
        assert(spec_insert(s, m) =~= s.update(0, m));
    } else {
        assert(s[0].key() != m.key());
        assert forall|j: int| 0 <= j < i - 1 implies (#[trigger] s.drop_first()[j]).key()
            != m.key() by {
            assert(s.drop_first()[j] == s[j + 1]);
        }
        assert(s.drop_first()[i - 1] == s[i]);
        lemma_insert_update(s.drop_first(), i - 1, m);
        assert(s.drop_first().update(i - 1, m) =~= s.update(i, m).drop_first());
        assert(spec_insert(s, m) =~= s.update(i, m));
    }
}

proof fn lemma_insert_push(s: Seq<MsgModel>, m: MsgModel)
    requires
        forall|j: int| 0 <= j < s.len() ==> (#[trigger] s[j]).key() != m.key(),
    ensures
        spec_insert(s, m) == s.push(m),
    decreases s.len(),
{
    if s.len() == 0 {
        assert(spec_insert(s, m) =~= s.push(m));
    } else {
        assert forall|j: int| 0 <= j < s.drop_first().len() implies (
        #[trigger] s.drop_first()[j]).key() != m.key() by {
            assert(s.drop_first()[j] == s[j + 1]);
        }
        lemma_insert_push(s.drop_first(), m);
        assert(spec_insert(s, m) =~= s.push(m));
    }
}

/// The mathematical content of a catalog: its entries, in insertion order
/// and with unique keys, and the compiled plural-rule resolver.
pub ghost struct CatView {
    pub msgs: Seq<MsgModel>,
    pub resolver: Resolver,
}

/// A set of translation strings parsed out of one MO catalog, together
/// with the rule that picks a plural form for a count.  Immutable once
/// constructed; lookups never fail, absence degrades to the documented
/// fallback values.
#[derive(Debug)]
pub struct Catalog {
    pub strings: Vec<Message>,
    pub resolver: Resolver,
}

impl View for Catalog {
    type V = CatView;

    open spec fn view(&self) -> CatView {
        CatView {
            msgs: self.strings@.map_values(|m: Message| m@),
            resolver: self.resolver,
        }
    }
}

impl Catalog {
    /// Invariant: no two entries share a key, so a later entry with the
    /// same key has overwritten the earlier one.
    pub open spec fn wf(self) -> bool {
        forall|i: int, j: int|
            0 <= i < j < self@.msgs.len() ==> (#[trigger] self@.msgs[i]).key() != (
            #[trigger] self@.msgs[j]).key()
    }

    /// The entry stored under `key`, if any.
    pub open spec fn spec_lookup(self, key: Seq<char>) -> Option<MsgModel> {
        spec_find(self@.msgs, key)
    }

    /// What `gettext` returns: the first form of the entry under `msg_id`,
    /// or `msg_id` itself when there is no such entry or it has no forms.
    pub open spec fn spec_gettext(self, msg_id: Seq<char>) -> Seq<char> {
        match self.spec_lookup(msg_id) {
            Some(m) => if m.forms.len() > 0 {
                m.forms[0]
            } else {
                msg_id
            },
            None => msg_id,
        }
    }

    /// What `ngettext` returns: the form the resolver selects for `n` when
    /// the entry under `msg_id` has it; otherwise `msg_id` when `n == 1`
    /// and `msg_id_plural` otherwise.  The two-string fallback goes by the
    /// literal test `n == 1` alone, never by the resolver: the resolver
    /// only selects among forms that are actually present.
    pub open spec fn spec_ngettext(
        self,
        msg_id: Seq<char>,
        msg_id_plural: Seq<char>,
        n: u64,
    ) -> Seq<char> {
        let idx = self@.resolver.spec_resolve(n);
        match self.spec_lookup(msg_id) {
            Some(m) => if idx < m.forms.len() {
                m.forms[idx as int]
            } else if n == 1 {
                msg_id
            } else {
                msg_id_plural
            },
            None => if n == 1 {
                msg_id
            } else {
                msg_id_plural
            },
        }
    }

    /// As `spec_gettext`, but under the composite (context, id) key.  The
    /// fallback is the bare `msg_id`, never the context-qualified string.
    pub open spec fn spec_pgettext(self, msg_context: Seq<char>, msg_id: Seq<char>) -> Seq<char> {
        match self.spec_lookup(spec_key_of(msg_context, msg_id)) {
            Some(m) => if m.forms.len() > 0 {
                m.forms[0]
            } else {
                msg_id
            },
            None => msg_id,
        }
    }

    /// As `spec_ngettext`, but under the composite (context, id) key.
    pub open spec fn spec_npgettext(
        self,
        msg_context: Seq<char>,
        msg_id: Seq<char>,
        msg_id_plural: Seq<char>,
        n: u64,
    ) -> Seq<char> {
        let idx = self@.resolver.spec_resolve(n);
        match self.spec_lookup(spec_key_of(msg_context, msg_id)) {
            Some(m) => if idx < m.forms.len() {
                m.forms[idx as int]
            } else if n == 1 {
                msg_id
            } else {
                msg_id_plural
            },
            None => if n == 1 {
                msg_id
            } else {
                msg_id_plural
            },
        }
    }

    /// Parses a gettext catalog from the bytes of a binary MO file.
    /// Returns the `Err` variant upon encountering an invalid file format
    /// or invalid byte sequence in strings.  Equivalent to
    /// `ParseOptions::new().parse(bytes)`.
    pub fn parse(bytes: &[u8]) -> (r: Result<Catalog, parser::Error>)
        ensures
            match r {
                Ok(cat) => parser::spec_parse(bytes@, None, false) == Ok::<
                    CatView,
                    parser::FailKind,
                >(cat@) && cat.wf(),
                Err(e) => parser::spec_parse(bytes@, None, false) == Err::<
                    CatView,
                    parser::FailKind,
                >(parser::spec_kind(e)),
            },
    {
        parser::parse_catalog(bytes, parser::ParseOptions::new())
    }

    /// The keys the catalog's entries are stored under, in storage order.
    pub fn keys(&self) -> (r: Vec<String>)
        ensures
            r.deep_view() == self@.msgs.map_values(|m: MsgModel| m.key()),
    {
        let mut r: Vec<String> = Vec::new();
        let len = self.strings.len();
        let mut j: usize = 0;
        while j < len
            invariant
                j <= len,
                len == self@.msgs.len(),
                r@.len() == j,
                forall|q: int| 0 <= q < j ==> r@[q]@ == self@.msgs[q].key(),
            decreases len - j,
        {
            r.push(msg_key(&self.strings[j]));
            j += 1;
        }
        proof {
            assert(r.deep_view() =~= self@.msgs.map_values(|m: MsgModel| m.key()));
        }
        r
    }

    /// Creates a new, empty catalog with the built-in plural rule.
    pub fn new() -> (r: Catalog)
        ensures
            r@.msgs.len() == 0,
            r@.resolver == Resolver::Builtin,
            r.wf(),
    {
        Catalog { strings: Vec::new(), resolver: Resolver::Builtin }
    }

    /// The index of the entry stored under `key`, if any.
    fn find_index(&self, key: &str) -> (r: Option<usize>)
        ensures
            match r {
                Some(i) => i < self@.msgs.len() && (#[trigger] self@.msgs[i as int]).key() == key@
                    && self.spec_lookup(key@) == Some(self@.msgs[i as int]) && (forall|j: int|
                    0 <= j < i ==> (#[trigger] self@.msgs[j]).key() != key@),
                None => self.spec_lookup(key@) is None && (forall|j: int|
                    0 <= j < self@.msgs.len() ==> (#[trigger] self@.msgs[j]).key() != key@),
            },
    {
        let len = self.strings.len();
        let mut i: usize = 0;
        while i < len
            invariant
                i <= len,
                len == self@.msgs.len(),
                forall|j: int| 0 <= j < i ==> (#[trigger] self@.msgs[j]).key() != key@,
            decreases len - i,
        {
            let k = msg_key(&self.strings[i]);
            if crate::strutil::str_eq(k.as_str(), key) {
                proof {
                    lemma_spec_find_at(self@.msgs, key@, i as int);
                }
                return Some(i);
            }
            i += 1;
        }
        proof {
            lemma_spec_find_none(self@.msgs, key@);
        }
        None
    }

    /// Stores a message under its key, overwriting any entry already held
    /// under the same key.
    pub fn insert(&mut self, msg: Message)
        requires
            old(self).wf(),
        ensures
            final(self).wf(),
            final(self)@.resolver == old(self)@.resolver,
            final(self)@.msgs == spec_insert(old(self)@.msgs, msg@),
            final(self).spec_lookup(msg@.key()) == Some(msg@),
            forall|k: Seq<char>|
                k != msg@.key() ==> #[trigger] final(self).spec_lookup(k) == old(self).spec_lookup(
                    k,
                ),
    {
        let key = msg_key(&msg);
        match self.find_index(key.as_str()) {
            Some(i) => {
                self.strings[i] = msg;
                proof {
                    let oldm = old(self)@.msgs;
                    let newm = final(self)@.msgs;
                    assert(newm =~= oldm.update(i as int, msg@));
                    lemma_insert_update(oldm, i as int, msg@);
                    lemma_spec_find_at(newm, msg@.key(), i as int);
                    assert forall|k: Seq<char>| k != msg@.key() implies #[trigger] spec_find(
                        newm,
                        k,
                    ) == spec_find(oldm, k) by {
                        lemma_find_update_other(oldm, i as int, msg@, k);
                    }
                }
            },
            None => {
                self.strings.push(msg);
                proof {
                    let oldm = old(self)@.msgs;
                    let newm = final(self)@.msgs;
                    assert(newm =~= oldm.push(msg@));
                    lemma_insert_push(oldm, msg@);
                    lemma_spec_find_at(newm, msg@.key(), oldm.len() as int);
                    assert forall|k: Seq<char>| k != msg@.key() implies #[trigger] spec_find(
                        newm,
                        k,
                    ) == spec_find(oldm, k) by {
                        lemma_find_push_other(oldm, msg@, k);
                    }
                }
            },
        }
    }

    /// Returns the singular translation of `msg_id`, or `msg_id` itself if
    /// a translation does not exist.
    pub fn gettext<'a>(&'a self, msg_id: &'a str) -> (r: &'a str)
        ensures
            r@ == self.spec_gettext(msg_id@),
    {
        match self.find_index(msg_id) {
            Some(i) => {
                let m = &self.strings[i];
                if m.translated.len() > 0 {
                    m.translated[0].as_str()
                } else {
                    msg_id
                }
            },
            None => msg_id,
        }
    }

    /// Returns the plural translation of `msg_id` with the form the
    /// catalog's rule picks for the count `n`.  Without a usable
    /// translation, returns `msg_id` when `n == 1` and `msg_id_plural`
    /// otherwise.
    pub fn ngettext<'a>(&'a self, msg_id: &'a str, msg_id_plural: &'a str, n: u64) -> (r: &'a str)
        ensures
            r@ == self.spec_ngettext(msg_id@, msg_id_plural@, n),
    {
        let idx = self.resolver.resolve(n);
        match self.find_index(msg_id) {
            Some(i) => {
                let m = &self.strings[i];
                if idx < m.translated.len() as u64 {
                    m.translated[idx as usize].as_str()
                } else if n == 1 {
                    msg_id
                } else {
                    msg_id_plural
                }
            },
            None => {
                if n == 1 {
                    msg_id
                } else {
                    msg_id_plural
                }
            },
        }
    }

    /// Returns the singular translation of `msg_id` in the context
    /// `msg_context`, or `msg_id` itself if a translation does not exist.
    pub fn pgettext<'a>(&'a self, msg_context: &'a str, msg_id: &'a str) -> (r: &'a str)
        ensures
            r@ == self.spec_pgettext(msg_context@, msg_id@),
    {
        let key = key_with_context(msg_context, msg_id);
        match self.find_index(key.as_str()) {
            Some(i) => {
                let m = &self.strings[i];
                if m.translated.len() > 0 {
                    m.translated[0].as_str()
                } else {
                    msg_id
                }
            },
            None => msg_id,
        }
    }

    /// Returns the plural translation of `msg_id` in the context
    /// `msg_context` with the form the catalog's rule picks for `n`.
    /// Without a usable translation, returns `msg_id` when `n == 1` and
    /// `msg_id_plural` otherwise.
    pub fn npgettext<'a>(
        &'a self,
        msg_context: &'a str,
        msg_id: &'a str,
        msg_id_plural: &'a str,
        n: u64,
    ) -> (r: &'a str)
        ensures
            r@ == self.spec_npgettext(msg_context@, msg_id@, msg_id_plural@, n),
    {
        let key = key_with_context(msg_context, msg_id);
        let idx = self.resolver.resolve(n);
        match self.find_index(key.as_str()) {
            Some(i) => {
                let m = &self.strings[i];
                if idx < m.translated.len() as u64 {
                    m.translated[idx as usize].as_str()
                } else if n == 1 {
                    msg_id
                } else {
                    msg_id_plural
                }
            },
            None => {
                if n == 1 {
                    msg_id
                } else {
                    msg_id_plural
                }
            },
        }
    }
}

/// The composite key string a message is stored under.
fn msg_key(m: &Message) -> (r: String)
    ensures
        r@ == m@.key(),
{
    match &m.context {
        Some(c) => key_with_context(c.as_str(), m.id.as_str()),
        None => m.id.clone(),
    }
}

/// The two-string fallback of the plural lookups is governed strictly by
/// the literal test `n == 1`, whatever the catalog's resolver would
/// compute for the same count: without an entry under the id, `ngettext`
/// returns `msg_id` exactly when `n == 1` and `msg_id_plural` otherwise.
pub proof fn lemma_ngettext_fallback(cat: Catalog, msg_id: Seq<char>, msg_id_plural: Seq<char>, n: u64)
    requires
        cat.spec_lookup(msg_id) is None,
    ensures
        cat.spec_ngettext(msg_id, msg_id_plural, n) == if n == 1 {
            msg_id
        } else {
            msg_id_plural
        },
{
}

/// As [`lemma_ngettext_fallback`], for the context-keyed plural lookup:
/// the fallback is decided by `n == 1` alone, and is never the
/// context-qualified string.
pub proof fn lemma_npgettext_fallback(
    cat: Catalog,
    msg_context: Seq<char>,
    msg_id: Seq<char>,
    msg_id_plural: Seq<char>,
    n: u64,
)
    requires
        cat.spec_lookup(spec_key_of(msg_context, msg_id)) is None,
    ensures
        cat.spec_npgettext(msg_context, msg_id, msg_id_plural, n) == if n == 1 {
            msg_id
        } else {
            msg_id_plural
        },
{
}

/// Parsing is deterministic: two catalogs built from the same buffer with
/// the same options hold the same entries and resolver, and answer every
/// query of every kind identically.
pub proof fn lemma_parse_deterministic(
    c1: Catalog,
    c2: Catalog,
    b: Seq<u8>,
    enc: Option<Seq<char>>,
    disable_plural: bool,
)
    requires
        parser::spec_parse(b, enc, disable_plural) == Ok::<CatView, parser::FailKind>(c1@),
        parser::spec_parse(b, enc, disable_plural) == Ok::<CatView, parser::FailKind>(c2@),
    ensures
        c1@ == c2@,
        forall|id: Seq<char>| #[trigger] c1.spec_gettext(id) == c2.spec_gettext(id),
        forall|id: Seq<char>, pl: Seq<char>, n: u64| #[trigger] c1.spec_ngettext(id, pl, n)
            == c2.spec_ngettext(id, pl, n),
        forall|cx: Seq<char>, id: Seq<char>| #[trigger] c1.spec_pgettext(cx, id)
            == c2.spec_pgettext(cx, id),
        forall|cx: Seq<char>, id: Seq<char>, pl: Seq<char>, n: u64| #[trigger] c1.spec_npgettext(
            cx,
            id,
            pl,
            n,
        ) == c2.spec_npgettext(cx, id, pl, n),
{
    assert(c1@ == c2@);
}

proof fn lemma_find_update_other(s: Seq<MsgModel>, i: int, m: MsgModel, k: Seq<char>)
    requires
        0 <= i < s.len(),
        s[i].key() == m.key(),
        k != m.key(),
    ensures
        spec_find(s.update(i, m), k) == spec_find(s, k),
    decreases s.len(),
{
    let s2 = s.update(i, m);
    if i == 0 {
        assert(s2.drop_first() =~= s.drop_first());
    } else {
        assert(s2[0] == s[0]);
        if s[0].key() != k {
            assert(s2.drop_first() =~= s.drop_first().update(i - 1, m));
            lemma_find_update_other(s.drop_first(), i - 1, m, k);
        }
    }
}

proof fn lemma_find_push_other(s: Seq<MsgModel>, m: MsgModel, k: Seq<char>)
    requires
        k != m.key(),
    ensures
        spec_find(s.push(m), k) == spec_find(s, k),
    decreases s.len(),
{
    let sp = s.push(m);
    if s.len() == 0 {
        assert(sp[0] == m);
        assert(sp.drop_first() =~= Seq::<MsgModel>::empty());
        assert(spec_find(sp.drop_first(), k) is None);
        assert(spec_find(sp, k) is None);
    } else {
        assert(sp[0] == s[0]);
        assert(sp.drop_first() =~= s.drop_first().push(m));
        lemma_find_push_other(s.drop_first(), m, k);
    }
}

} // verus!

