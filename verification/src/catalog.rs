//! The gettext catalog as this library sees it: a mathematical model of what
//! a `polib` catalog holds, and the few operations of `polib` that the
//! library calls, each with the contract it is trusted to keep.

use crate::translations::{TranslationUnit, UnitModel};
use polib::catalog::Catalog;
use polib::message::{Message, MessageView};
use polib::metadata::{CatalogMetadata, MetadataParseError};
use vstd::prelude::*;

verus! {

/// `polib::catalog::Catalog`; what it holds is known only through
/// [`catalog_slots`] and [`catalog_index`].
#[verifier::external_type_specification]
#[verifier::external_body]
pub struct ExCatalog(polib::catalog::Catalog);

/// `polib::metadata::CatalogMetadata`, the header of a catalog; it is only
/// carried from the parser into a new catalog.
#[verifier::external_type_specification]
#[verifier::external_body]
pub struct ExCatalogMetadata(polib::metadata::CatalogMetadata);

/// `polib::metadata::MetadataParseError`, the reason why a header was not
/// accepted.
#[verifier::external_type_specification]
#[verifier::external_body]
pub struct ExMetadataParseError(polib::metadata::MetadataParseError);

/// The fields of one stored message that this library reads or writes.
/// An empty `msgctxt` means that the message has no context.
pub ghost struct MessageModel {
    pub msgctxt: Seq<char>,
    pub msgid: Seq<char>,
    pub is_plural: bool,
    pub msgid_plural: Seq<char>,
    pub msgstr: Seq<char>,
    pub msgstr_plural: Seq<Seq<char>>,
}

/// The message slots of a catalog in storage order; a deleted message leaves
/// an empty slot behind.
pub uninterp spec fn catalog_slots(c: Catalog) -> Seq<Option<MessageModel>>;

/// The lookup table of a catalog: from a message key to the slot that an
/// update of that key writes to.
pub uninterp spec fn catalog_index(c: Catalog) -> Map<Seq<char>, int>;

/// Whether `CatalogMetadata::parse` accepts `content` as a catalog header.
pub uninterp spec fn metadata_parses(content: Seq<char>) -> bool;

/// Slots and lookup table of a catalog together.
pub ghost struct CatalogState {
    pub slots: Seq<Option<MessageModel>>,
    pub index: Map<Seq<char>, int>,
}

/// The state of `c`.
pub open spec fn state_of(c: Catalog) -> CatalogState {
    CatalogState { slots: catalog_slots(c), index: catalog_index(c) }
}

/// The key under which a catalog files a message: context, source text and,
/// for a plural message, the plural source text, joined by the separators
/// U+0004 and U+0000.
pub open spec fn message_key(m: MessageModel) -> Seq<char> {
    let head = if m.msgctxt.len() > 0 {
        m.msgctxt + seq!['\u{4}'] + m.msgid
    } else {
        m.msgid
    };
    if m.is_plural {
        head + seq!['\u{0}'] + m.msgid_plural
    } else {
        head
    }
}

/// A message counts as translated when its singular translation is not
/// empty, or when none of its plural forms is empty.
pub open spec fn message_translated(m: MessageModel) -> bool {
    if m.is_plural {
        forall|i: int| 0 <= i < m.msgstr_plural.len() ==> (#[trigger] m.msgstr_plural[i]).len() > 0
    } else {
        m.msgstr.len() > 0
    }
}

/// The messages that a walk over the slots meets, in order.
pub open spec fn present(slots: Seq<Option<MessageModel>>) -> Seq<MessageModel>
    decreases slots.len(),
{
    if slots.len() == 0 {
        Seq::empty()
    } else {
        match slots.last() {
            Some(m) => present(slots.drop_last()).push(m),
            None => present(slots.drop_last()),
        }
    }
}

impl CatalogState {
    /// The state of a catalog that holds no message.
    pub open spec fn empty() -> CatalogState {
        CatalogState { slots: Seq::empty(), index: Map::empty() }
    }

    /// The state after `m` was appended or, where the lookup table knows its
    /// key, written over the slot that the table names.
    pub open spec fn upsert(self, m: MessageModel) -> CatalogState {
        let key = message_key(m);
        if self.index.contains_key(key) {
            CatalogState { slots: self.slots.update(self.index[key], Some(m)), index: self.index }
        } else {
            CatalogState {
                slots: self.slots.push(Some(m)),
                index: self.index.insert(key, self.slots.len() as int),
            }
        }
    }

    /// The lookup table agrees with the slots: it knows exactly the keys of
    /// the stored messages, each at its own slot.
    pub open spec fn consistent(self) -> bool {
        &&& forall|k: Seq<char>| #[trigger]
            self.index.contains_key(k) ==> {
                &&& 0 <= self.index[k] < self.slots.len()
                &&& self.slots[self.index[k]] matches Some(m) && message_key(m) == k
            }
        &&& forall|i: int|
            0 <= i < self.slots.len() ==> (#[trigger] self.slots[i] matches Some(m) ==> {
                &&& self.index.contains_key(message_key(m))
                &&& self.index[message_key(m)] == i
            })
    }

    /// The stored messages in the order in which a reader meets them.
    pub open spec fn messages(self) -> Seq<MessageModel> {
        present(self.slots)
    }
}

/// One message as a reader of the catalog sees it, with the answer of the
/// catalog's own translated-state test.
#[derive(Debug, PartialEq, Eq)]
pub struct CatalogEntry {
    pub unit: TranslationUnit,
    pub translated: bool,
}

/// What a [`CatalogEntry`] holds.
pub ghost struct EntryModel {
    pub unit: UnitModel,
    pub translated: bool,
}

impl View for CatalogEntry {
    type V = EntryModel;

    open spec fn view(&self) -> EntryModel {
        EntryModel { unit: self.unit@, translated: self.translated }
    }
}

impl DeepView for CatalogEntry {
    type V = EntryModel;

    open spec fn deep_view(&self) -> EntryModel {
        self@
    }
}

/// How a stored message shows through the read interface: an empty context
/// reads as none, the plural fields exist only on a plural message and the
/// singular translation only on a singular one.
pub open spec fn observe(m: MessageModel) -> EntryModel {
    EntryModel {
        unit: UnitModel {
            msg_id: m.msgid,
            msg_id_plural: if m.is_plural {
                Some(m.msgid_plural)
            } else {
                None
            },
            msg_str: if m.is_plural {
                None
            } else {
                Some(m.msgstr)
            },
            msg_str_plural: if m.is_plural {
                Some(m.msgstr_plural)
            } else {
                None
            },
            context: if m.msgctxt.len() > 0 {
                Some(m.msgctxt)
            } else {
                None
            },
        },
        translated: message_translated(m),
    }
}

/// The entries of a catalog as its read interface shows them, in order.
pub open spec fn entries_of(c: Catalog) -> Seq<EntryModel> {
    present(catalog_slots(c)).map_values(|m: MessageModel| observe(m))
}

/// The singular message that the builder makes from these fields.
pub open spec fn singular_message(
    msgctxt: Seq<char>,
    msgid: Seq<char>,
    msgstr: Seq<char>,
) -> MessageModel {
    MessageModel {
        msgctxt,
        msgid,
        is_plural: false,
        msgid_plural: Seq::empty(),
        msgstr,
        msgstr_plural: Seq::empty(),
    }
}

/// The plural message that the builder makes from these fields.
pub open spec fn plural_message(
    msgctxt: Seq<char>,
    msgid: Seq<char>,
    msgid_plural: Seq<char>,
    msgstr_plural: Seq<Seq<char>>,
) -> MessageModel {
    MessageModel {
        msgctxt,
        msgid,
        is_plural: true,
        msgid_plural,
        msgstr: Seq::empty(),
        msgstr_plural,
    }
}

/// `CatalogMetadata::parse` reads a catalog header; whether it accepts a
/// given text depends on that text alone.
#[verifier::external_body]
pub(crate) fn parse_metadata(content: &str) -> (r: Result<CatalogMetadata, MetadataParseError>)
    ensures
        r.is_ok() == metadata_parses(content@),
{
    CatalogMetadata::parse(content)
}

/// The text that `MetadataParseError` displays; nothing is claimed of it.
#[verifier::external_body]
pub(crate) fn metadata_error_text(e: &MetadataParseError) -> String {
    e.to_string()
}

/// `Catalog::new` makes a catalog with the given header, no message slot
/// and an empty lookup table.
#[verifier::external_body]
pub(crate) fn new_catalog(metadata: CatalogMetadata) -> (c: Catalog)
    ensures
        catalog_slots(c) == CatalogState::empty().slots,
        catalog_index(c) == CatalogState::empty().index,
{
    Catalog::new(metadata)
}

/// `Catalog::messages` walks the slots in order and skips the empty ones;
/// each message met is copied out through the getters of `MessageView`,
/// together with the answer of `is_translated`.
#[verifier::external_body]
pub(crate) fn read_messages(c: &Catalog) -> (out: Vec<CatalogEntry>)
    ensures
        out.deep_view() == entries_of(*c),
{
    c.messages().map(
        |m| CatalogEntry {
            unit: TranslationUnit {
                msg_id: m.msgid().to_string(),
                msg_id_plural: m.msgid_plural().ok().map(String::from),
                msg_str: m.msgstr().ok().map(String::from),
                msg_str_plural: m.msgstr_plural().ok().cloned(),
                context: m.msgctxt().map(String::from),
            },
            translated: m.is_translated(),
        },
    ).collect()
}

/// The entries of a catalog as a reader meets them, in order.
pub fn catalog_entries(c: &Catalog) -> (out: Vec<CatalogEntry>)
    ensures
        out.deep_view() == entries_of(*c),
{
    read_messages(c)
}

/// `Catalog::append_or_update` with a singular message from the builder:
/// where the lookup table knows the message's key the message replaces the
/// slot that the table names, else it takes a new slot at the end, which the
/// table then names for that key.
#[verifier::external_body]
pub(crate) fn put_singular(c: &mut Catalog, msgctxt: String, msgid: String, msgstr: String)
    ensures
        catalog_slots(*final(c)) == state_of(*old(c)).upsert(
            singular_message(msgctxt@, msgid@, msgstr@),
        ).slots,
        catalog_index(*final(c)) == state_of(*old(c)).upsert(
            singular_message(msgctxt@, msgid@, msgstr@),
        ).index,
{
    c.append_or_update(
        Message::build_singular().with_msgctxt(msgctxt).with_msgid(msgid).with_msgstr(
            msgstr,
        ).done(),
    );
}

/// `Catalog::append_or_update` with a plural message from the builder; the
/// slots and the lookup table change as for a singular message.
#[verifier::external_body]
pub(crate) fn put_plural(
    c: &mut Catalog,
    msgctxt: String,
    msgid: String,
    msgid_plural: String,
    msgstr_plural: Vec<String>,
)
    ensures
        catalog_slots(*final(c)) == state_of(*old(c)).upsert(
            plural_message(msgctxt@, msgid@, msgid_plural@, msgstr_plural.deep_view()),
        ).slots,
        catalog_index(*final(c)) == state_of(*old(c)).upsert(
            plural_message(msgctxt@, msgid@, msgid_plural@, msgstr_plural.deep_view()),
        ).index,
{
    c.append_or_update(
        Message::build_plural().with_msgctxt(msgctxt).with_msgid(msgid).with_msgid_plural(
            msgid_plural,
        ).with_msgstr_plural(msgstr_plural).done(),
    );
}

/// The place among the messages that a reader meets of the message in slot
/// `t`: the number of messages in the slots before it.
pub open spec fn rank(slots: Seq<Option<MessageModel>>, t: int) -> int {
    present(slots.take(t)).len() as int
}

/// The message of a filled slot is met by a reader, at the rank of the slot.
pub proof fn lemma_present_at(slots: Seq<Option<MessageModel>>, t: int)
    requires
        0 <= t < slots.len(),
        slots[t] is Some,
    ensures
        0 <= rank(slots, t) < present(slots).len(),
        present(slots)[rank(slots, t)] == slots[t]->0,
    decreases slots.len(),
{
    if t == slots.len() - 1 {
        assert(slots.take(t) == slots.drop_last());
    } else {
        lemma_present_at(slots.drop_last(), t);
        assert(slots.drop_last().take(t) == slots.take(t));
    }
}

/// Every message that a reader meets sits in a slot, whose rank is the place
/// at which the reader meets it.
pub proof fn lemma_present_from(slots: Seq<Option<MessageModel>>, p: int) -> (t: int)
    requires
        0 <= p < present(slots).len(),
    ensures
        0 <= t < slots.len(),
        slots[t] == Some(present(slots)[p]),
        rank(slots, t) == p,
    decreases slots.len(),
{
    let rest = slots.drop_last();
    if slots.last() is Some && p == present(rest).len() {
        assert(slots.take(slots.len() - 1) == rest);
        slots.len() - 1
    } else {
        let t = lemma_present_from(rest, p);
        assert(rest.take(t) == slots.take(t));
        t
    }
}

/// Writing a message over a filled slot changes, for a reader, the message
/// at the rank of that slot and nothing else.
pub proof fn lemma_present_update(slots: Seq<Option<MessageModel>>, t: int, m: MessageModel)
    requires
        0 <= t < slots.len(),
        slots[t] is Some,
    ensures
        present(slots.update(t, Some(m))) == present(slots).update(rank(slots, t), m),
    decreases slots.len(),
{
    let written = slots.update(t, Some(m));
    if t == slots.len() - 1 {
        assert(written.drop_last() == slots.drop_last());
        assert(slots.take(t) == slots.drop_last());
        assert(present(slots).update(rank(slots, t), m) =~= present(slots.drop_last()).push(m));
    } else {
        lemma_present_update(slots.drop_last(), t, m);
        lemma_present_at(slots.drop_last(), t);
        assert(written.drop_last() == slots.drop_last().update(t, Some(m)));
        assert(slots.drop_last().take(t) == slots.take(t));
        assert(written.last() == slots.last());
        assert(present(written) =~= present(slots).update(rank(slots, t), m));
    }
}

/// In a consistent catalog no two messages that a reader meets have the same
/// key.
pub proof fn lemma_keys_unique(s: CatalogState, p: int, q: int)
    requires
        s.consistent(),
        0 <= p < s.messages().len(),
        0 <= q < s.messages().len(),
        message_key(s.messages()[p]) == message_key(s.messages()[q]),
    ensures
        p == q,
{
    let tp = lemma_present_from(s.slots, p);
    let tq = lemma_present_from(s.slots, q);
    assert(s.slots[tp] is Some);
    assert(s.slots[tq] is Some);
}

/// A consistent catalog stays consistent when a message is stored.
pub proof fn lemma_upsert_consistent(s: CatalogState, m: MessageModel)
    requires
        s.consistent(),
    ensures
        s.upsert(m).consistent(),
{
    let after = s.upsert(m);
    let key = message_key(m);
    if s.index.contains_key(key) {
        let t = s.index[key];
        assert forall|i: int| 0 <= i < after.slots.len() implies (
        #[trigger] after.slots[i] matches Some(x) ==> after.index.contains_key(message_key(x))
            && after.index[message_key(x)] == i) by {
            if i != t {
                assert(after.slots[i] == s.slots[i]);
            }
        }
        assert forall|k: Seq<char>| #[trigger] after.index.contains_key(k) implies 0
            <= after.index[k] < after.slots.len() && (after.slots[after.index[k]] matches Some(x)
            && message_key(x) == k) by {
            assert(s.index.contains_key(k));
            if s.index[k] != t {
                assert(after.slots[s.index[k]] == s.slots[s.index[k]]);
            } else {
                assert(s.slots[t] is Some);
            }
        }
    } else {
        let t = s.slots.len() as int;
        assert forall|i: int| 0 <= i < after.slots.len() implies (
        #[trigger] after.slots[i] matches Some(x) ==> after.index.contains_key(message_key(x))
            && after.index[message_key(x)] == i) by {
            if i != t {
                assert(after.slots[i] == s.slots[i]);
            }
        }
        assert forall|k: Seq<char>| #[trigger] after.index.contains_key(k) implies 0
            <= after.index[k] < after.slots.len() && (after.slots[after.index[k]] matches Some(x)
            && message_key(x) == k) by {
            if k != key {
                assert(s.index.contains_key(k));
                assert(after.slots[s.index[k]] == s.slots[s.index[k]]);
            }
        }
    }
}

/// Storing a message whose key no stored message has appends it: a reader
/// then meets the messages as before, and the new one after them.
pub proof fn lemma_upsert_appends(s: CatalogState, m: MessageModel)
    requires
        s.consistent(),
        forall|p: int|
            0 <= p < s.messages().len() ==> message_key(#[trigger] s.messages()[p]) != message_key(
                m,
            ),
    ensures
        s.upsert(m).messages() == s.messages().push(m),
{
    let key = message_key(m);
    if s.index.contains_key(key) {
        let t = s.index[key];
        lemma_present_at(s.slots, t);
        assert(message_key(s.messages()[rank(s.slots, t)]) == key);
    }
    assert(s.slots.push(Some(m)).drop_last() == s.slots);
}

/// Storing a message whose key a stored message has replaces that message
/// where it stands: a reader then meets the new message in its place and
/// every other message as before.
pub proof fn lemma_upsert_replaces(s: CatalogState, m: MessageModel, p: int)
    requires
        s.consistent(),
        0 <= p < s.messages().len(),
        message_key(s.messages()[p]) == message_key(m),
    ensures
        s.upsert(m).messages() == s.messages().update(p, m),
{
    let t = lemma_present_from(s.slots, p);
    assert(s.slots[t] is Some);
    lemma_present_update(s.slots, t, m);
}

/// After a message was stored in a consistent catalog, a reader meets it.
pub proof fn lemma_upsert_stores(s: CatalogState, m: MessageModel) -> (p: int)
    requires
        s.consistent(),
    ensures
        0 <= p < s.upsert(m).messages().len(),
        s.upsert(m).messages()[p] == m,
{
    let after = s.upsert(m);
    let key = message_key(m);
    let t = if s.index.contains_key(key) {
        s.index[key]
    } else {
        s.slots.len() as int
    };
    assert(after.slots[t] == Some(m));
    lemma_present_at(after.slots, t);
    rank(after.slots, t)
}

/// A text is plain when it holds neither of the two separators of a message
/// key, U+0004 and U+0000.
pub open spec fn plain(s: Seq<char>) -> bool {
    forall|i: int| 0 <= i < s.len() ==> #[trigger] s[i] != '\u{4}' && s[i] != '\u{0}'
}

impl MessageModel {
    /// The texts that go into the key of the message are plain.
    pub open spec fn plain_source(self) -> bool {
        &&& plain(self.msgctxt)
        &&& plain(self.msgid)
        &&& self.is_plural ==> plain(self.msgid_plural)
    }

    /// Two messages are the same entry when they agree in context and source
    /// text, are both plural or both singular and, if plural, agree in the
    /// plural source text.
    pub open spec fn same_entry(self, other: MessageModel) -> bool {
        &&& self.msgctxt == other.msgctxt
        &&& self.msgid == other.msgid
        &&& self.is_plural == other.is_plural
        &&& self.is_plural ==> self.msgid_plural == other.msgid_plural
    }
}

/// The part of a key before the plural source text.
pub open spec fn key_head(m: MessageModel) -> Seq<char> {
    if m.msgctxt.len() > 0 {
        m.msgctxt + seq!['\u{4}'] + m.msgid
    } else {
        m.msgid
    }
}

/// A text is cut at the first occurrence of a separator in one way only.
proof fn lemma_split_unique(a: Seq<char>, b: Seq<char>, c: Seq<char>, d: Seq<char>, sep: char)
    requires
        a + seq![sep] + b == c + seq![sep] + d,
        forall|i: int| 0 <= i < a.len() ==> a[i] != sep,
        forall|i: int| 0 <= i < c.len() ==> c[i] != sep,
    ensures
        a == c,
        b == d,
{
    let left = a + seq![sep] + b;
    let right = c + seq![sep] + d;
    if a.len() < c.len() {
        assert(left[a.len() as int] == sep);
        assert(right[a.len() as int] == c[a.len() as int]);
    }
    if c.len() < a.len() {
        assert(right[c.len() as int] == sep);
        assert(left[c.len() as int] == a[c.len() as int]);
    }
    assert(left.len() == right.len());
    assert forall|i: int| 0 <= i < a.len() implies a[i] == c[i] by {
        assert(left[i] == a[i]);
        assert(right[i] == c[i]);
    }
    assert(a =~= c);
    assert forall|i: int| 0 <= i < b.len() implies b[i] == d[i] by {
        assert(left[a.len() + 1 + i] == b[i]);
        assert(right[c.len() + 1 + i] == d[i]);
    }
    assert(b =~= d);
}

/// The head of a key with plain texts holds no U+0000.
proof fn lemma_head_without_nul(m: MessageModel)
    requires
        plain(m.msgctxt),
        plain(m.msgid),
    ensures
        forall|i: int| 0 <= i < key_head(m).len() ==> key_head(m)[i] != '\u{0}',
{
    assert forall|i: int| 0 <= i < key_head(m).len() implies key_head(m)[i] != '\u{0}' by {
        if m.msgctxt.len() > 0 {
            if i < m.msgctxt.len() {
                assert(key_head(m)[i] == m.msgctxt[i]);
            } else if i > m.msgctxt.len() {
                assert(key_head(m)[i] == m.msgid[i - m.msgctxt.len() - 1]);
            }
        } else {
            assert(key_head(m)[i] == m.msgid[i]);
        }
    }
}

/// Messages with plain texts and the same key head agree in context and
/// source text.
proof fn lemma_head_tells_apart(m1: MessageModel, m2: MessageModel)
    requires
        plain(m1.msgctxt),
        plain(m1.msgid),
        plain(m2.msgctxt),
        plain(m2.msgid),
        key_head(m1) == key_head(m2),
    ensures
        m1.msgctxt == m2.msgctxt,
        m1.msgid == m2.msgid,
{
    if m1.msgctxt.len() > 0 && m2.msgctxt.len() > 0 {
        lemma_split_unique(m1.msgctxt, m1.msgid, m2.msgctxt, m2.msgid, '\u{4}');
    } else if m1.msgctxt.len() > 0 {
        assert(key_head(m1)[m1.msgctxt.len() as int] == '\u{4}');
        assert(key_head(m2)[m1.msgctxt.len() as int] == m2.msgid[m1.msgctxt.len() as int]);
    } else if m2.msgctxt.len() > 0 {
        assert(key_head(m2)[m2.msgctxt.len() as int] == '\u{4}');
        assert(key_head(m1)[m2.msgctxt.len() as int] == m1.msgid[m2.msgctxt.len() as int]);
    } else {
        assert(m1.msgctxt =~= m2.msgctxt);
    }
}

/// Among messages with plain texts the key tells the entries apart: two
/// messages have the same key exactly when they are the same entry.
pub proof fn lemma_key_tells_entries_apart(m1: MessageModel, m2: MessageModel)
    requires
        m1.plain_source(),
        m2.plain_source(),
    ensures
        message_key(m1) == message_key(m2) <==> m1.same_entry(m2),
{
    lemma_head_without_nul(m1);
    lemma_head_without_nul(m2);
    assert(message_key(m1) == if m1.is_plural {
        key_head(m1) + seq!['\u{0}'] + m1.msgid_plural
    } else {
        key_head(m1)
    });
    assert(message_key(m2) == if m2.is_plural {
        key_head(m2) + seq!['\u{0}'] + m2.msgid_plural
    } else {
        key_head(m2)
    });
    if message_key(m1) == message_key(m2) {
        if m1.is_plural && m2.is_plural {
            lemma_split_unique(
                key_head(m1),
                m1.msgid_plural,
                key_head(m2),
                m2.msgid_plural,
                '\u{0}',
            );
        } else if m1.is_plural {
            assert(message_key(m1)[key_head(m1).len() as int] == '\u{0}');
        } else if m2.is_plural {
            assert(message_key(m2)[key_head(m2).len() as int] == '\u{0}');
        }
        lemma_head_tells_apart(m1, m2);
    }
}

} // verus!
