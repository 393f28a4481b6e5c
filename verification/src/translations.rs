//! Translation units: one message of a catalog, pending or holding its
//! translation.

use crate::catalog::{
    entries_of, lemma_key_tells_entries_apart, lemma_present_from, lemma_upsert_consistent,
    lemma_upsert_stores, message_key, message_translated, metadata_error_text, metadata_parses, new_catalog, observe,
    parse_metadata, plain, plural_message, put_plural, put_singular, read_messages, singular_message,
    state_of, CatalogEntry, CatalogState, EntryModel, MessageModel,
};
use polib::catalog::Catalog;
use vstd::prelude::*;

verus! {

/// One message pending or holding translation. The unit is plural exactly
/// when it has a plural source text; its identity is the pair of source text
/// and context.
#[derive(Debug, PartialEq, Eq)]
pub struct TranslationUnit {
    pub msg_id: String,
    pub msg_id_plural: Option<String>,
    pub msg_str: Option<String>,
    pub msg_str_plural: Option<Vec<String>>,
    pub context: Option<String>,
}

/// What a [`TranslationUnit`] holds, as plain texts.
pub ghost struct UnitModel {
    pub msg_id: Seq<char>,
    pub msg_id_plural: Option<Seq<char>>,
    pub msg_str: Option<Seq<char>>,
    pub msg_str_plural: Option<Seq<Seq<char>>>,
    pub context: Option<Seq<char>>,
}

impl UnitModel {
    /// A unit is plural exactly when it has a plural source text.
    pub open spec fn is_plural(self) -> bool {
        self.msg_id_plural is Some
    }

    /// The identity by which units are matched and merged.
    pub open spec fn identity(self) -> (Seq<char>, Option<Seq<char>>) {
        (self.msg_id, self.context)
    }

    /// The unit with its result fields overwritten and its source untouched.
    pub open spec fn with_results(
        self,
        msg_str: Option<Seq<char>>,
        msg_str_plural: Option<Seq<Seq<char>>>,
    ) -> UnitModel {
        UnitModel { msg_str, msg_str_plural, ..self }
    }
}

impl View for TranslationUnit {
    type V = UnitModel;

    open spec fn view(&self) -> UnitModel {
        UnitModel {
            msg_id: self.msg_id@,
            msg_id_plural: self.msg_id_plural.deep_view(),
            msg_str: self.msg_str.deep_view(),
            msg_str_plural: self.msg_str_plural.deep_view(),
            context: self.context.deep_view(),
        }
    }
}

impl DeepView for TranslationUnit {
    type V = UnitModel;

    open spec fn deep_view(&self) -> UnitModel {
        self@
    }
}

/// A copy of `v` that holds the same texts.
pub fn copy_texts(v: &Vec<String>) -> (out: Vec<String>)
    ensures
        out.deep_view() == v.deep_view(),
{
    let mut out: Vec<String> = Vec::new();
    let mut i: usize = 0;
    while i < v.len()
        invariant
            i <= v.len(),
            out.len() == i,
            forall|k: int| 0 <= k < i ==> out@[k]@ == v@[k]@,
        decreases v.len() - i,
    {
        out.push(v[i].clone());
        i += 1;
    }
    proof {
        assert(out.deep_view() =~= v.deep_view());
    }
    out
}

/// A copy of an optional text.
pub fn copy_text(s: &Option<String>) -> (out: Option<String>)
    ensures
        out.deep_view() == s.deep_view(),
{
    match s {
        Some(t) => Some(t.clone()),
        None => None,
    }
}

impl Clone for TranslationUnit {
    fn clone(&self) -> (out: Self)
        ensures
            out@ == self@,
    {
        TranslationUnit {
            msg_id: self.msg_id.clone(),
            msg_id_plural: copy_text(&self.msg_id_plural),
            msg_str: copy_text(&self.msg_str),
            msg_str_plural: match &self.msg_str_plural {
                Some(v) => Some(copy_texts(v)),
                None => None,
            },
            context: copy_text(&self.context),
        }
    }
}

/// The one-line text that shows a unit: its context in brackets if it has
/// one, its source text, marked where the unit is plural, and its
/// translation: the singular result if there is one, else the first plural
/// result, else a note that there is none.
pub open spec fn display_text(u: UnitModel) -> Seq<char> {
    (match u.context {
        Some(c) => "["@ + c + "] "@,
        None => Seq::empty(),
    }) + (if u.is_plural() {
        u.msg_id + " (plural)"@
    } else {
        u.msg_id
    }) + " => "@ + (match u.msg_str {
        Some(s) => s,
        None => match u.msg_str_plural {
            Some(forms) => if forms.len() > 0 {
                forms[0]
            } else {
                "..."@
            },
            None => "No translations"@,
        },
    })
}

impl TranslationUnit {
    /// Whether the unit has a plural source text.
    pub fn is_plural(&self) -> (r: bool)
        ensures
            r == self@.is_plural(),
    {
        self.msg_id_plural.is_some()
    }

    /// The one-line text that shows the unit.
    pub fn display(&self) -> (out: String)
        ensures
            out@ == display_text(self@),
    {
        let mut out = String::new();
        match &self.context {
            Some(c) => {
                out.append("[");
                out.append(c.as_str());
                out.append("] ");
            },
            None => {},
        }
        let ghost context = out@;
        out.append(self.msg_id.as_str());
        if self.msg_id_plural.is_some() {
            out.append(" (plural)");
        }
        out.append(" => ");
        let ghost head = out@;
        match &self.msg_str {
            Some(s) => {
                out.append(s.as_str());
            },
            None => match &self.msg_str_plural {
                Some(forms) => {
                    if forms.len() > 0 {
                        assert(forms.deep_view()[0] == forms@[0]@);
                        out.append(forms[0].as_str());
                    } else {
                        out.append("...");
                    }
                },
                None => {
                    out.append("No translations");
                },
            },
        }
        proof {
            assert(out@ =~= display_text(self@));
        }
        out
    }
}

/// Whether a template entry is left out: only when translated entries are
/// to be skipped and the existing catalog holds a translated entry of the
/// same identity.
pub open spec fn skipped(existing: Seq<EntryModel>, skip_translated: bool, e: EntryModel) -> bool {
    skip_translated && exists|j: int|
        0 <= j < existing.len() && (#[trigger] existing[j]).translated
            && existing[j].unit.identity() == e.unit.identity()
}

/// The unit made from a template entry: its source fields, and an empty
/// placeholder in the result field of its shape.
pub open spec fn placeholder(u: UnitModel) -> UnitModel {
    if u.is_plural() {
        u.with_results(None, Some(Seq::empty()))
    } else {
        u.with_results(Some(Seq::empty()), None)
    }
}

/// The units that need translation: the template entries that are not
/// skipped, in template order, each as a placeholder.
pub open spec fn extract(
    existing: Seq<EntryModel>,
    template: Seq<EntryModel>,
    skip_translated: bool,
) -> Seq<UnitModel> {
    template.filter(|e: EntryModel| !skipped(existing, skip_translated, e)).map_values(
        |e: EntryModel| placeholder(e.unit),
    )
}

/// The header of a catalog created for `target_lang`: the language code,
/// UTF-8 content and the two-form plural rule `n != 1`.
pub open spec fn header_text(target_lang: Seq<char>) -> Seq<char> {
    "Project-Id-Version: 1.0\nLast-Translator: PO-LLM\nLanguage-Team: PO-LLM\nLanguage: "@
        + target_lang
        + "\nMIME-Version: 1.0\nContent-Type: text/plain; charset=UTF-8\nContent-Transfer-Encoding: 8bit\nPlural-Forms: nplurals=2; plural=(n != 1);\n"@
}

/// The message that stores a unit: a missing context is stored as the empty
/// context, a missing result as the empty result of the unit's shape.
pub open spec fn message_of(u: UnitModel) -> MessageModel {
    let msgctxt = match u.context {
        Some(c) => c,
        None => Seq::empty(),
    };
    match u.msg_id_plural {
        Some(plural) => plural_message(
            msgctxt,
            u.msg_id,
            plural,
            match u.msg_str_plural {
                Some(forms) => forms,
                None => Seq::empty(),
            },
        ),
        None => singular_message(
            msgctxt,
            u.msg_id,
            match u.msg_str {
                Some(s) => s,
                None => Seq::empty(),
            },
        ),
    }
}

/// The state of a catalog after the units were stored one after the other.
pub open spec fn apply_units(start: CatalogState, units: Seq<UnitModel>) -> CatalogState
    decreases units.len(),
{
    if units.len() == 0 {
        start
    } else {
        apply_units(start, units.drop_last()).upsert(message_of(units.last()))
    }
}

/// The state that a merge starts from: that of the existing catalog, or the
/// empty one.
pub open spec fn start_state(existing: Option<Catalog>) -> CatalogState {
    match existing {
        Some(c) => state_of(c),
        None => CatalogState::empty(),
    }
}

/// The catalog that a task diffs the template against: the loaded output
/// catalog or, where there is none, the template.
pub open spec fn baseline(loaded: Option<Catalog>, template: Catalog) -> Catalog {
    match loaded {
        Some(c) => c,
        None => template,
    }
}

/// Why a merge produced no catalog.
#[derive(Debug, PartialEq, Eq)]
pub enum ApplyError {
    /// The header of a new catalog was not accepted; the text says why.
    Metadata(String),
}

/// Whether two optional texts hold the same.
pub fn same_text(a: &Option<String>, b: &Option<String>) -> (r: bool)
    ensures
        r == (a.deep_view() == b.deep_view()),
{
    match (a, b) {
        (Some(x), Some(y)) => *x == *y,
        (None, None) => true,
        _ => false,
    }
}

/// The header text of a catalog created for `target_lang`.
pub fn catalog_header(target_lang: &str) -> (out: String)
    ensures
        out@ == header_text(target_lang@),
{
    let mut out =
        "Project-Id-Version: 1.0\nLast-Translator: PO-LLM\nLanguage-Team: PO-LLM\nLanguage: ".to_owned();
    out.append(target_lang);
    out.append(
        "\nMIME-Version: 1.0\nContent-Type: text/plain; charset=UTF-8\nContent-Transfer-Encoding: 8bit\nPlural-Forms: nplurals=2; plural=(n != 1);\n",
    );
    out
}

/// Whether `existing` holds a translated entry with the identity of `e`.
fn is_skipped(existing: &Vec<CatalogEntry>, skip_translated: bool, e: &CatalogEntry) -> (r: bool)
    ensures
        r == skipped(existing.deep_view(), skip_translated, e@),
{
    if !skip_translated {
        return false;
    }
    let mut j: usize = 0;
    while j < existing.len()
        invariant
            skip_translated,
            j <= existing.len(),
            forall|k: int|
                0 <= k < j ==> !((#[trigger] existing.deep_view()[k]).translated
                    && existing.deep_view()[k].unit.identity() == e@.unit.identity()),
        decreases existing.len() - j,
    {
        let other = &existing[j];
        assert(existing.deep_view()[j as int] == other@);
        if other.translated && other.unit.msg_id == e.unit.msg_id && same_text(
            &other.unit.context,
            &e.unit.context,
        ) {
            proof {
                let found = existing.deep_view()[j as int];
                assert(found.translated && found.unit.identity() == e@.unit.identity());
            }
            return true;
        }
        j += 1;
    }
    false
}

/// The placeholder unit for a template entry.
fn make_placeholder(u: &TranslationUnit) -> (out: TranslationUnit)
    ensures
        out@ == placeholder(u@),
{
    match &u.msg_id_plural {
        Some(plural) => {
            let forms: Vec<String> = Vec::new();
            assert(forms.deep_view() =~= Seq::<Seq<char>>::empty());
            TranslationUnit {
                msg_id: u.msg_id.clone(),
                msg_id_plural: Some(plural.clone()),
                msg_str: None,
                msg_str_plural: Some(forms),
                context: copy_text(&u.context),
            }
        },
        None => TranslationUnit {
            msg_id: u.msg_id.clone(),
            msg_id_plural: None,
            msg_str: Some(String::new()),
            msg_str_plural: None,
            context: copy_text(&u.context),
        },
    }
}

/// Stores one unit in the catalog.
fn store_unit(catalog: &mut Catalog, u: &TranslationUnit)
    ensures
        state_of(*final(catalog)) == state_of(*old(catalog)).upsert(message_of(u@)),
{
    let msgctxt = match &u.context {
        Some(c) => c.clone(),
        None => String::new(),
    };
    match &u.msg_id_plural {
        Some(plural) => {
            let forms = match &u.msg_str_plural {
                Some(v) => copy_texts(v),
                None => {
                    let none: Vec<String> = Vec::new();
                    assert(none.deep_view() =~= Seq::<Seq<char>>::empty());
                    none
                },
            };
            put_plural(catalog, msgctxt, u.msg_id.clone(), plural.clone(), forms);
        },
        None => {
            let msgstr = match &u.msg_str {
                Some(s) => s.clone(),
                None => String::new(),
            };
            put_singular(catalog, msgctxt, u.msg_id.clone(), msgstr);
        },
    }
}

/// The units of `pot_data` that still need translation, given what
/// `po_data` already holds.
fn extract_from(po_data: &Catalog, pot_data: &Catalog, skip_translated: bool) -> (out: Vec<
    TranslationUnit,
>)
    ensures
        out.deep_view() == extract(entries_of(*po_data), entries_of(*pot_data), skip_translated),
{
    let existing = read_messages(po_data);
    let template = read_messages(pot_data);
    let ghost wanted = |e: EntryModel| !skipped(existing.deep_view(), skip_translated, e);
    let ghost project = |e: EntryModel| placeholder(e.unit);
    let mut out: Vec<TranslationUnit> = Vec::new();
    let mut i: usize = 0;
    proof {
        assert(template.deep_view().take(0).filter(wanted).map_values(project)
            =~= out.deep_view());
    }
    while i < template.len()
        invariant
            i <= template.len(),
            wanted == |e: EntryModel| !skipped(existing.deep_view(), skip_translated, e),
            project == |e: EntryModel| placeholder(e.unit),
            out.deep_view() == template.deep_view().take(i as int).filter(wanted).map_values(
                project,
            ),
        decreases template.len() - i,
    {
        let entry = &template[i];
        let ghost before = template.deep_view().take(i as int);
        let ghost after = template.deep_view().take(i + 1);
        let ghost kept = out.deep_view();
        proof {
            assert(after.drop_last() == before);
            assert(after.last() == entry@);
        }
        if !is_skipped(&existing, skip_translated, entry) {
            let unit = make_placeholder(&entry.unit);
            out.push(unit);
            proof {
                assert(out.deep_view() =~= kept.push(placeholder(entry@.unit)));
                assert(after.filter(wanted) == before.filter(wanted).push(entry@)) by {
                    reveal_with_fuel(Seq::filter, 2);
                }
                assert(after.filter(wanted).map_values(project) =~= kept.push(
                    placeholder(entry@.unit),
                ));
            }
        } else {
            proof {
                assert(after.filter(wanted) == before.filter(wanted)) by {
                    reveal_with_fuel(Seq::filter, 2);
                }
            }
        }
        i += 1;
    }
    proof {
        assert(template.deep_view().take(template.len() as int) == template.deep_view());
    }
    out
}

/// Reading units out of catalogs and merging translated units back in.
pub trait Translatable {
    /// The units of `pot_data` that still need translation, given what
    /// `po_data` already holds.
    fn extract_messages(po_data: Catalog, pot_data: Catalog, skip_translated: bool) -> (out: Vec<
        TranslationUnit,
    >)
        ensures
            out.deep_view() == extract(entries_of(po_data), entries_of(pot_data), skip_translated),
    ;

    /// Merges `translations` into the existing catalog or, where there is
    /// none, into a new catalog for `target_lang`.
    fn apply_translations(
        translations: Vec<TranslationUnit>,
        target_lang: &str,
        existing: Option<Catalog>,
    ) -> (r: Result<Catalog, ApplyError>)
        ensures
            r is Ok <==> existing is Some || metadata_parses(header_text(target_lang@)),
            r matches Ok(c) ==> state_of(c) == apply_units(
                start_state(existing),
                translations.deep_view(),
            ),
    ;
}

/// The gettext flavour of [`Translatable`].
pub struct GettextAdapter;

impl GettextAdapter {
    /// The units of the template that still need translation for a task
    /// whose output catalog was loaded, or could not be: without a loaded
    /// catalog the template itself stands in for it.
    pub fn extract_pending(loaded: Option<Catalog>, template: Catalog, skip_translated: bool) -> (out:
        Vec<TranslationUnit>)
        ensures
            out.deep_view() == extract(
                entries_of(baseline(loaded, template)),
                entries_of(template),
                skip_translated,
            ),
    {
        match loaded {
            Some(po_data) => extract_from(&po_data, &template, skip_translated),
            None => extract_from(&template, &template, skip_translated),
        }
    }
}

impl Translatable for GettextAdapter {
    fn extract_messages(po_data: Catalog, pot_data: Catalog, skip_translated: bool) -> (out: Vec<
        TranslationUnit,
    >) {
        extract_from(&po_data, &pot_data, skip_translated)
    }

    fn apply_translations(
        translations: Vec<TranslationUnit>,
        target_lang: &str,
        existing: Option<Catalog>,
    ) -> (r: Result<Catalog, ApplyError>) {
        let mut catalog = match existing {
            Some(c) => c,
            None => {
                let header = catalog_header(target_lang);
                match parse_metadata(header.as_str()) {
                    Ok(metadata) => new_catalog(metadata),
                    Err(e) => {
                        return Err(ApplyError::Metadata(metadata_error_text(&e)));
                    },
                }
            },
        };
        let ghost start = state_of(catalog);
        let mut i: usize = 0;
        while i < translations.len()
            invariant
                i <= translations.len(),
                state_of(catalog) == apply_units(start, translations.deep_view().take(i as int)),
            decreases translations.len() - i,
        {
            proof {
                let after = translations.deep_view().take(i + 1);
                assert(after.drop_last() == translations.deep_view().take(i as int));
                assert(after.last() == translations@[i as int]@);
            }
            store_unit(&mut catalog, &translations[i]);
            i += 1;
        }
        proof {
            assert(translations.deep_view().take(translations.len() as int)
                == translations.deep_view());
        }
        Ok(catalog)
    }
}

/// Where the existing catalog holds a translated entry for the identity of
/// every template entry, and translated entries are skipped, no unit is
/// left to translate.
pub proof fn lemma_fully_translated_extracts_nothing(
    existing: Seq<EntryModel>,
    template: Seq<EntryModel>,
)
    requires
        forall|i: int|
            0 <= i < template.len() ==> exists|j: int|
                0 <= j < existing.len() && (#[trigger] existing[j]).translated
                    && existing[j].unit.identity() == (#[trigger] template[i]).unit.identity(),
    ensures
        extract(existing, template, true) == Seq::<UnitModel>::empty(),
{
    let wanted = |e: EntryModel| !skipped(existing, true, e);
    assert forall|i: int| 0 <= i < template.len() implies !wanted(#[trigger] template[i]) by {
        let j = choose|j: int|
            0 <= j < existing.len() && (#[trigger] existing[j]).translated
                && existing[j].unit.identity() == template[i].unit.identity();
        assert(skipped(existing, true, template[i]));
    }
    assert(template.all(|e: EntryModel| !wanted(e)));
    template.lemma_all_neg_filter_empty(wanted);
    assert(extract(existing, template, true) =~= Seq::<UnitModel>::empty());
}

/// Without skipping, every template entry becomes a unit, in template order.
pub proof fn lemma_nothing_skipped_extracts_all(
    existing: Seq<EntryModel>,
    template: Seq<EntryModel>,
)
    ensures
        extract(existing, template, false) == template.map_values(
            |e: EntryModel| placeholder(e.unit),
        ),
{
    let wanted = |e: EntryModel| !skipped(existing, false, e);
    lemma_filter_all(template, wanted);
}

/// A filter that every element passes changes nothing.
proof fn lemma_filter_all(s: Seq<EntryModel>, pred: spec_fn(EntryModel) -> bool)
    requires
        forall|i: int| 0 <= i < s.len() ==> pred(#[trigger] s[i]),
    ensures
        s.filter(pred) == s,
    decreases s.len(),
{
    reveal_with_fuel(Seq::filter, 2);
    if s.len() > 0 {
        lemma_filter_all(s.drop_last(), pred);
        assert(s.drop_last().push(s.last()) == s);
    }
}

impl UnitModel {
    /// A unit holds a result of its own shape only, and its context, if it
    /// has one, is not empty.
    pub open spec fn well_shaped(self) -> bool {
        &&& self.context != Some(Seq::<char>::empty())
        &&& self.is_plural() ==> self.msg_str is None && self.msg_str_plural is Some
        &&& !self.is_plural() ==> self.msg_str is Some && self.msg_str_plural is None
    }
}

/// What a reader finds of a stored unit: its source text, plural source
/// text and context as they were, and the result of its shape as it was. A
/// well-shaped unit reads back identical.
pub proof fn lemma_stored_unit_reads_identical(u: UnitModel)
    ensures
        observe(message_of(u)).unit.msg_id == u.msg_id,
        observe(message_of(u)).unit.msg_id_plural == u.msg_id_plural,
        u.context is Some && u.context->0.len() > 0 ==> observe(message_of(u)).unit.context
            == u.context,
        !u.is_plural() && u.msg_str is Some ==> observe(message_of(u)).unit.msg_str == u.msg_str,
        u.is_plural() && u.msg_str_plural is Some ==> observe(message_of(u)).unit.msg_str_plural
            == u.msg_str_plural,
        u.well_shaped() ==> observe(message_of(u)).unit == u,
{
    if u.well_shaped() {
        match u.context {
            Some(c) => {
                assert(c.len() > 0) by {
                    if c.len() == 0 {
                        assert(c =~= Seq::<char>::empty());
                    }
                }
            },
            None => {},
        }
    }
}

/// A consistent catalog stays consistent when units are merged into it.
pub proof fn lemma_apply_consistent(start: CatalogState, units: Seq<UnitModel>)
    requires
        start.consistent(),
    ensures
        apply_units(start, units).consistent(),
    decreases units.len(),
{
    if units.len() > 0 {
        lemma_apply_consistent(start, units.drop_last());
        lemma_upsert_consistent(apply_units(start, units.drop_last()), message_of(units.last()));
    }
}

/// After units were merged into a consistent catalog, a reader meets the
/// message of every unit whose key no later unit of the merge has.
pub proof fn lemma_applied_unit_is_stored(start: CatalogState, units: Seq<UnitModel>, i: int) -> (p:
    int)
    requires
        start.consistent(),
        0 <= i < units.len(),
        forall|j: int|
            i < j < units.len() ==> message_key(message_of(#[trigger] units[j])) != message_key(
                message_of(units[i]),
            ),
    ensures
        0 <= p < apply_units(start, units).messages().len(),
        apply_units(start, units).messages()[p] == message_of(units[i]),
    decreases units.len(),
{
    let before = apply_units(start, units.drop_last());
    let last = message_of(units.last());
    lemma_apply_consistent(start, units.drop_last());
    if i == units.len() - 1 {
        lemma_upsert_stores(before, last)
    } else {
        assert forall|j: int| i < j < units.drop_last().len() implies message_key(
            message_of(#[trigger] units.drop_last()[j]),
        ) != message_key(message_of(units.drop_last()[i])) by {
            assert(units.drop_last()[j] == units[j]);
        }
        let q = lemma_applied_unit_is_stored(start, units.drop_last(), i);
        assert(units.drop_last()[i] == units[i]);
        let t = lemma_present_from(before.slots, q);
        let after = before.upsert(last);
        assert(after.slots[t] == Some(message_of(units[i]))) by {
            if before.index.contains_key(message_key(last)) {
                let w = before.index[message_key(last)];
                assert(before.slots[w] is Some);
                assert(w != t);
            }
        }
        crate::catalog::lemma_present_at(after.slots, t);
        crate::catalog::rank(after.slots, t)
    }
}

/// A catalog that holds no message is consistent.
pub proof fn lemma_empty_consistent()
    ensures
        CatalogState::empty().consistent(),
{
}

/// Applying translated units and reading the catalog again yields the values
/// that were applied: after a merge into a consistent catalog, a reader
/// finds every well-shaped unit of the merge as it was, unless a later unit
/// of the merge has taken its place.
pub proof fn lemma_applied_unit_reads_back(start: CatalogState, units: Seq<UnitModel>, i: int) -> (p:
    int)
    requires
        start.consistent(),
        0 <= i < units.len(),
        units[i].well_shaped(),
        forall|j: int|
            i < j < units.len() ==> message_key(message_of(#[trigger] units[j])) != message_key(
                message_of(units[i]),
            ),
    ensures
        0 <= p < apply_units(start, units).messages().len(),
        observe(apply_units(start, units).messages()[p]).unit == units[i],
{
    let p = lemma_applied_unit_is_stored(start, units, i);
    lemma_stored_unit_reads_identical(units[i]);
    p
}

impl UnitModel {
    /// The source texts of the unit hold neither U+0004 nor U+0000.
    pub open spec fn plain_source(self) -> bool {
        &&& plain(self.msg_id)
        &&& self.context matches Some(c) ==> plain(c)
        &&& self.msg_id_plural matches Some(p) ==> plain(p)
    }

    /// The context of the unit, where an empty context counts as none.
    pub open spec fn effective_context(self) -> Option<Seq<char>> {
        match self.context {
            Some(c) => if c.len() > 0 {
                Some(c)
            } else {
                None
            },
            None => None,
        }
    }
}

/// A catalog files units by their identity: two units with plain source
/// texts go to the same entry exactly when they agree in source text and
/// context, and in their plural source text or the lack of one.
pub proof fn lemma_units_filed_by_identity(a: UnitModel, b: UnitModel)
    requires
        a.plain_source(),
        b.plain_source(),
    ensures
        message_key(message_of(a)) == message_key(message_of(b)) <==> {
            &&& a.msg_id == b.msg_id
            &&& a.effective_context() == b.effective_context()
            &&& a.msg_id_plural == b.msg_id_plural
        },
{
    let ma = message_of(a);
    let mb = message_of(b);
    assert(plain(Seq::<char>::empty()));
    lemma_key_tells_entries_apart(ma, mb);
    if ma.same_entry(mb) {
        if a.effective_context() is None {
            assert(ma.msgctxt.len() == 0);
        }
    }
    if a.effective_context() == b.effective_context() {
        assert(ma.msgctxt =~= mb.msgctxt);
    }
}

impl UnitModel {
    /// The unit holds a translation: a singular result that is not empty,
    /// or plural results none of which is empty.
    pub open spec fn holds_translation(self) -> bool {
        match self.msg_id_plural {
            Some(_) => self.msg_str_plural matches Some(forms) && forall|k: int|
                0 <= k < forms.len() ==> (#[trigger] forms[k]).len() > 0,
            None => self.msg_str matches Some(s) && s.len() > 0,
        }
    }
}

/// What was applied is not extracted again: after a merge into a consistent
/// catalog, a template entry with the identity of a well-shaped unit of the
/// merge that holds a translation is skipped, unless a later unit of the
/// merge has taken the place of that unit.
pub proof fn lemma_applied_unit_is_skipped(
    start: CatalogState,
    units: Seq<UnitModel>,
    i: int,
    e: EntryModel,
)
    requires
        start.consistent(),
        0 <= i < units.len(),
        units[i].well_shaped(),
        units[i].holds_translation(),
        forall|j: int|
            i < j < units.len() ==> message_key(message_of(#[trigger] units[j])) != message_key(
                message_of(units[i]),
            ),
        e.unit.identity() == units[i].identity(),
    ensures
        skipped(
            apply_units(start, units).messages().map_values(|m: MessageModel| observe(m)),
            true,
            e,
        ),
{
    let p = lemma_applied_unit_is_stored(start, units, i);
    lemma_stored_unit_reads_identical(units[i]);
    let stored = apply_units(start, units).messages();
    let entries = stored.map_values(|m: MessageModel| observe(m));
    assert(message_translated(message_of(units[i])));
    assert(entries[p].translated && entries[p].unit.identity() == e.unit.identity());
}

} // verus!
