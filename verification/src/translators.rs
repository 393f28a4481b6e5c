//! The translation protocol: a batch of units goes in, and every unit comes
//! back either translated or failed.

use crate::reply::{reconcile, reconciled, ReplyModel, ResponseEntry};
use crate::text::{chars_of, decimal, push_decimal, replace_all, substitute};
use crate::translations::{TranslationUnit, UnitModel};
use vstd::prelude::*;

verus! {

/// The outcome of one batch: the units that were translated and the units
/// that were not.
#[derive(Debug, PartialEq, Eq)]
pub struct TranslationResult {
    pub translated: Vec<TranslationUnit>,
    pub failed_translated: Vec<TranslationUnit>,
}

/// What a [`TranslationResult`] holds.
pub ghost struct ResultModel {
    pub translated: Seq<UnitModel>,
    pub failed_translated: Seq<UnitModel>,
}

impl View for TranslationResult {
    type V = ResultModel;

    open spec fn view(&self) -> ResultModel {
        ResultModel {
            translated: self.translated.deep_view(),
            failed_translated: self.failed_translated.deep_view(),
        }
    }
}

/// Why a whole batch failed.
#[derive(Debug, PartialEq, Eq)]
pub enum TranslateError {
    /// The request could not be built; the text says why.
    RequestBuild(String),
    /// The call to the backend failed; the text says why.
    Transport(String),
    /// The backend answered without content.
    EmptyResponse,
    /// The content was not the expected list of results.
    Unparsable { detail: String, preview: String },
    /// The backend returned no result at all for a batch of this many units.
    EmptyResult(usize),
}

/// What a [`TranslateError`] holds.
pub ghost enum ErrorModel {
    RequestBuild(Seq<char>),
    Transport(Seq<char>),
    EmptyResponse,
    Unparsable { detail: Seq<char>, preview: Seq<char> },
    EmptyResult(nat),
}

impl View for TranslateError {
    type V = ErrorModel;

    open spec fn view(&self) -> ErrorModel {
        match self {
            TranslateError::RequestBuild(detail) => ErrorModel::RequestBuild(detail@),
            TranslateError::Transport(detail) => ErrorModel::Transport(detail@),
            TranslateError::EmptyResponse => ErrorModel::EmptyResponse,
            TranslateError::Unparsable { detail, preview } => ErrorModel::Unparsable {
                detail: detail@,
                preview: preview@,
            },
            TranslateError::EmptyResult(n) => ErrorModel::EmptyResult(*n as nat),
        }
    }
}

/// What the outcome of a batch holds.
pub open spec fn outcome_view(r: Result<TranslationResult, TranslateError>) -> Result<
    ResultModel,
    ErrorModel,
> {
    match r {
        Ok(result) => Ok(result@),
        Err(e) => Err(e@),
    }
}

/// The units of the batch whose flag is `want`, in batch order.
pub open spec fn picked(units: Seq<UnitModel>, flags: Seq<bool>, want: bool) -> Seq<UnitModel>
    decreases units.len(),
{
    if units.len() == 0 || flags.len() == 0 {
        Seq::empty()
    } else if flags.last() == want {
        picked(units.drop_last(), flags.drop_last(), want).push(units.last())
    } else {
        picked(units.drop_last(), flags.drop_last(), want)
    }
}

/// Whether two lists hold, place by place, units with the same source text,
/// plural source text and context.
pub open spec fn same_sources(a: Seq<UnitModel>, b: Seq<UnitModel>) -> bool {
    &&& a.len() == b.len()
    &&& forall|i: int|
        0 <= i < a.len() ==> {
            &&& (#[trigger] a[i]).msg_id == b[i].msg_id
            &&& a[i].msg_id_plural == b[i].msg_id_plural
            &&& a[i].context == b[i].context
        }
}

/// Every unit of the batch is in exactly one of the two lists, once: there
/// is a split of the batch positions such that the translated list holds the
/// units of one side, with nothing but their result fields changed, and the
/// failed list the units of the other side as they were.
pub open spec fn partitions(units: Seq<UnitModel>, result: ResultModel) -> bool {
    exists|flags: Seq<bool>|
        {
            &&& flags.len() == units.len()
            &&& same_sources(result.translated, #[trigger] picked(units, flags, true))
            &&& result.failed_translated == picked(units, flags, false)
        }
}

/// A translation protocol.
pub trait Translator {
    /// Translates one batch. Where it succeeds, every unit of the batch is in
    /// exactly one of the two lists of the result.
    fn translate(
        &self,
        target_lang: &str,
        translation_units: &[TranslationUnit],
        custom_prompt: &Option<String>,
    ) -> (r: Result<TranslationResult, TranslateError>)
        ensures
            r matches Ok(result) ==> partitions(translation_units.deep_view(), result@),
            r matches Ok(result) ==> result.translated.len() + result.failed_translated.len()
                == translation_units.len(),
    ;
}

/// The placeholder that a dry run writes for one source text.
pub open spec fn dry_text(target_lang: Seq<char>, source: Seq<char>) -> Seq<char> {
    "[DRY:"@ + target_lang + "] "@ + source
}

/// A unit as a dry run returns it: a placeholder for the source text and,
/// on a plural unit, a second one for the plural source text.
pub open spec fn dry_unit(target_lang: Seq<char>, u: UnitModel) -> UnitModel {
    match u.msg_id_plural {
        Some(plural) => u.with_results(
            u.msg_str,
            Some(seq![dry_text(target_lang, u.msg_id), dry_text(target_lang, plural)]),
        ),
        None => u.with_results(Some(dry_text(target_lang, u.msg_id)), u.msg_str_plural),
    }
}

/// The result of a dry run: every unit translated, none failed.
pub open spec fn dry_result(target_lang: Seq<char>, units: Seq<UnitModel>) -> ResultModel {
    ResultModel {
        translated: units.map_values(|u: UnitModel| dry_unit(target_lang, u)),
        failed_translated: Seq::empty(),
    }
}

/// With every flag set, the picked units are the whole batch and nothing is
/// left over.
pub proof fn lemma_pick_all(units: Seq<UnitModel>)
    ensures
        picked(units, Seq::new(units.len(), |i: int| true), true) == units,
        picked(units, Seq::new(units.len(), |i: int| true), false) == Seq::<UnitModel>::empty(),
    decreases units.len(),
{
    let flags = Seq::new(units.len(), |i: int| true);
    if units.len() > 0 {
        lemma_pick_all(units.drop_last());
        assert(flags.drop_last() == Seq::new(units.drop_last().len(), |i: int| true));
        assert(units.drop_last().push(units.last()) == units);
    } else {
        assert(units == Seq::<UnitModel>::empty());
    }
}

/// The two sides of a split have together as many units as the batch.
pub proof fn lemma_picked_lengths(units: Seq<UnitModel>, flags: Seq<bool>)
    requires
        flags.len() == units.len(),
    ensures
        picked(units, flags, true).len() + picked(units, flags, false).len() == units.len(),
    decreases units.len(),
{
    if units.len() > 0 {
        lemma_picked_lengths(units.drop_last(), flags.drop_last());
    }
}

/// A result that partitions a batch holds as many units as the batch.
pub proof fn lemma_partition_counts(units: Seq<UnitModel>, result: ResultModel)
    requires
        partitions(units, result),
    ensures
        result.translated.len() + result.failed_translated.len() == units.len(),
{
    let flags = choose|flags: Seq<bool>|
        {
            &&& flags.len() == units.len()
            &&& same_sources(result.translated, #[trigger] picked(units, flags, true))
            &&& result.failed_translated == picked(units, flags, false)
        };
    lemma_picked_lengths(units, flags);
}

/// A dry run gives the same result whenever it is given the same batch and
/// target language: two results that each meet its contract hold the same.
pub proof fn lemma_dry_run_repeats(
    target_lang: Seq<char>,
    units: Seq<UnitModel>,
    first: ResultModel,
    second: ResultModel,
)
    requires
        first == dry_result(target_lang, units),
        second == dry_result(target_lang, units),
    ensures
        first == second,
        first.translated.len() == units.len(),
        first.failed_translated.len() == 0,
{
}

/// The dry-run placeholder for one source text.
fn dry_placeholder(target_lang: &str, source: &str) -> (out: String)
    ensures
        out@ == dry_text(target_lang@, source@),
{
    let mut out = "[DRY:".to_owned();
    out.append(target_lang);
    out.append("] ");
    out.append(source);
    out
}

/// The protocol that calls no backend: it answers every unit with a
/// placeholder made of a tag, the target language and the source text.
pub struct DryRunTranslator;

impl Translator for DryRunTranslator {
    fn translate(
        &self,
        target_lang: &str,
        translation_units: &[TranslationUnit],
        _custom_prompt: &Option<String>,
    ) -> (r: Result<TranslationResult, TranslateError>)
        ensures
            r matches Ok(result) && result@ == dry_result(
                target_lang@,
                translation_units.deep_view(),
            ),
    {
        let ghost units = translation_units.deep_view();
        let mut translated: Vec<TranslationUnit> = Vec::new();
        let mut i: usize = 0;
        while i < translation_units.len()
            invariant
                i <= translation_units.len(),
                units == translation_units.deep_view(),
                translated.len() == i,
                forall|k: int|
                    0 <= k < i ==> (#[trigger] translated@[k])@ == dry_unit(target_lang@, units[k]),
            decreases translation_units.len() - i,
        {
            let unit = &translation_units[i];
            let mut result = unit.clone();
            match &unit.msg_id_plural {
                Some(plural) => {
                    let mut forms: Vec<String> = Vec::new();
                    forms.push(dry_placeholder(target_lang, unit.msg_id.as_str()));
                    forms.push(dry_placeholder(target_lang, plural.as_str()));
                    proof {
                        assert(forms.deep_view() =~= seq![
                            dry_text(target_lang@, unit.msg_id@),
                            dry_text(target_lang@, plural@),
                        ]);
                    }
                    result.msg_str_plural = Some(forms);
                },
                None => {
                    result.msg_str = Some(dry_placeholder(target_lang, unit.msg_id.as_str()));
                },
            }
            translated.push(result);
            i += 1;
        }
        let failed_translated: Vec<TranslationUnit> = Vec::new();
        let result = TranslationResult { translated, failed_translated };
        proof {
            let want = dry_result(target_lang@, units);
            assert(result@.translated =~= want.translated);
            assert(result@.failed_translated =~= want.failed_translated);
            lemma_pick_all(units);
            let flags = Seq::new(units.len(), |i: int| true);
            assert(same_sources(result@.translated, picked(units, flags, true)));
        }
        Ok(result)
    }
}

/// The protocol that asks a chat-completion backend. It holds what goes into
/// every request; the call itself is made by whoever owns the connection.
pub struct LlmTranslator {
    pub model: String,
    pub system_prompt: String,
    pub project_context: String,
}

/// What the exchange with the backend produced.
#[derive(Debug, PartialEq, Eq)]
pub enum BackendReply {
    /// The request could not be built.
    BuildFailed(String),
    /// The call failed on the way.
    CallFailed(String),
    /// The first choice of the answer has no content.
    NoContent,
    /// The content is not a list of result objects.
    Unparsable { detail: String, content: String },
    /// The result objects of the answer, in the order in which they came.
    Entries(Vec<ResponseEntry>),
}

/// What a [`BackendReply`] holds.
pub ghost enum ReplyOutcome {
    BuildFailed(Seq<char>),
    CallFailed(Seq<char>),
    NoContent,
    Unparsable { detail: Seq<char>, content: Seq<char> },
    Entries(Seq<ReplyModel>),
}

impl View for BackendReply {
    type V = ReplyOutcome;

    open spec fn view(&self) -> ReplyOutcome {
        match self {
            BackendReply::BuildFailed(detail) => ReplyOutcome::BuildFailed(detail@),
            BackendReply::CallFailed(detail) => ReplyOutcome::CallFailed(detail@),
            BackendReply::NoContent => ReplyOutcome::NoContent,
            BackendReply::Unparsable { detail, content } => ReplyOutcome::Unparsable {
                detail: detail@,
                content: content@,
            },
            BackendReply::Entries(entries) => ReplyOutcome::Entries(entries.deep_view()),
        }
    }
}

/// What to do next for a batch.
#[derive(Debug, PartialEq, Eq)]
pub enum LlmStep {
    /// Nothing to ask: this is the result.
    Done(TranslationResult),
    /// Send these two messages to the backend.
    Ask { system: String, user: String },
}

/// The part of the user message that describes the unit at batch position
/// `i`: its index, its source text, its context if it has one, and its
/// plural source text if it is plural.
pub open spec fn prompt_block(i: nat, u: UnitModel) -> Seq<char> {
    "**Index**: "@ + decimal(i) + "\n"@ + "Source: "@ + u.msg_id + "\n"@ + (match u.context {
        Some(c) => "Context: "@ + c + "\n"@,
        None => Seq::empty(),
    }) + (match u.msg_id_plural {
        Some(p) => "Plural Source: "@ + p + "\n"@,
        None => Seq::empty(),
    }) + "\n---\n"@
}

/// The blocks of the first `n` units, one after the other.
pub open spec fn prompt_upto(units: Seq<UnitModel>, n: int) -> Seq<char>
    decreases n,
{
    if n <= 0 {
        Seq::empty()
    } else {
        prompt_upto(units, n - 1) + prompt_block((n - 1) as nat, units[n - 1])
    }
}

/// The user message for a batch.
pub open spec fn prompt_text(units: Seq<UnitModel>) -> Seq<char> {
    prompt_upto(units, units.len() as int)
}

/// The block that carries the user's own instructions into the system
/// message; empty where there are none.
pub open spec fn custom_block(custom_prompt: Option<Seq<char>>) -> Seq<char> {
    match custom_prompt {
        Some(c) => "## User Instructions:\n"@ + c + "\n"@,
        None => Seq::empty(),
    }
}

/// The system message: the template with its three slots filled, first the
/// target language, then the project context, then the user's instructions.
pub open spec fn system_text(
    template: Seq<char>,
    target_lang: Seq<char>,
    project_context: Seq<char>,
    custom_prompt: Option<Seq<char>>,
) -> Seq<char> {
    replace_all(
        replace_all(
            replace_all(template, "{target_lang}"@, target_lang),
            "{project_context}"@,
            project_context,
        ),
        "{custom_prompt}"@,
        custom_block(custom_prompt),
    )
}

/// The start of `content` that an error message quotes: its first 500
/// characters.
pub open spec fn preview_of(content: Seq<char>) -> Seq<char> {
    if content.len() <= 500 {
        content
    } else {
        content.take(500)
    }
}

/// The outcome of a batch for each thing that the exchange can produce.
pub open spec fn concluded(units: Seq<UnitModel>, reply: ReplyOutcome) -> Result<
    ResultModel,
    ErrorModel,
> {
    match reply {
        ReplyOutcome::BuildFailed(detail) => Err(ErrorModel::RequestBuild(detail)),
        ReplyOutcome::CallFailed(detail) => Err(ErrorModel::Transport(detail)),
        ReplyOutcome::NoContent => Err(ErrorModel::EmptyResponse),
        ReplyOutcome::Unparsable { detail, content } => Err(
            ErrorModel::Unparsable { detail, preview: preview_of(content) },
        ),
        ReplyOutcome::Entries(entries) => if entries.len() == 0 && units.len() > 0 {
            Err(ErrorModel::EmptyResult(units.len()))
        } else {
            Ok(reconciled(units, entries))
        },
    }
}

/// The text that reports a failed batch.
pub open spec fn error_text(e: ErrorModel, target_lang: Seq<char>) -> Seq<char> {
    match e {
        ErrorModel::RequestBuild(detail) => "Failed to build API request: "@ + detail,
        ErrorModel::Transport(detail) => "LLM API call failed for language '"@ + target_lang
            + "': "@ + detail + ". Check your API key, base URL, and network connectivity."@,
        ErrorModel::EmptyResponse => "LLM returned empty response for language '"@ + target_lang
            + "'. The model may not support structured outputs or encountered an error."@,
        ErrorModel::Unparsable { detail, preview } =>
            "Failed to parse LLM JSON response for language '"@ + target_lang
                + "':\n  Parse error: "@ + detail + "\n  Response preview: "@ + preview
                + "\n  This may indicate the model is not following the structured output format."@,
        ErrorModel::EmptyResult(n) => "LLM returned empty translation array for "@ + decimal(n)
            + " messages in language '"@ + target_lang + "'. Expected "@ + decimal(n)
            + " translations."@,
    }
}

/// The first 500 characters of `content`.
pub fn preview(content: &str) -> (out: String)
    ensures
        out@ == preview_of(content@),
{
    let chars = chars_of(content);
    let mut out = String::new();
    let mut i: usize = 0;
    while i < chars.len() && i < 500
        invariant
            i <= chars.len(),
            i <= 500,
            out@ == chars@.take(i as int),
        decreases chars.len() - i,
    {
        out.push(chars[i]);
        assert(chars@.take(i + 1) == chars@.take(i as int).push(chars@[i as int]));
        i += 1;
    }
    proof {
        if chars.len() <= 500 {
            assert(chars@.take(i as int) == chars@);
        }
    }
    out
}

/// Appends the block of the unit at batch position `i`.
fn push_block(out: &mut String, i: usize, u: &TranslationUnit)
    ensures
        final(out)@ == old(out)@ + prompt_block(i as nat, u@),
{
    let ghost start = out@;
    out.append("**Index**: ");
    push_decimal(out, i);
    out.append("\n");
    out.append("Source: ");
    out.append(u.msg_id.as_str());
    out.append("\n");
    let ghost head = "**Index**: "@ + decimal(i as nat) + "\n"@ + "Source: "@ + u.msg_id@ + "\n"@;
    assert(out@ =~= start + head);
    let ghost ctx = match u@.context {
        Some(c) => "Context: "@ + c + "\n"@,
        None => Seq::empty(),
    };
    match &u.context {
        Some(c) => {
            out.append("Context: ");
            out.append(c.as_str());
            out.append("\n");
        },
        None => {},
    }
    assert(out@ =~= start + (head + ctx));
    let ghost plural = match u@.msg_id_plural {
        Some(p) => "Plural Source: "@ + p + "\n"@,
        None => Seq::empty(),
    };
    match &u.msg_id_plural {
        Some(p) => {
            out.append("Plural Source: ");
            out.append(p.as_str());
            out.append("\n");
        },
        None => {},
    }
    assert(out@ =~= start + (head + ctx + plural));
    out.append("\n---\n");
    assert(out@ =~= start + (head + ctx + plural + "\n---\n"@));
}

impl TranslateError {
    /// The text that reports this failure for `target_lang`.
    pub fn message(&self, target_lang: &str) -> (out: String)
        ensures
            out@ == error_text(self@, target_lang@),
    {
        match self {
            TranslateError::RequestBuild(detail) => {
                let mut out = "Failed to build API request: ".to_owned();
                out.append(detail.as_str());
                out
            },
            TranslateError::Transport(detail) => {
                let mut out = "LLM API call failed for language '".to_owned();
                out.append(target_lang);
                out.append("': ");
                out.append(detail.as_str());
                out.append(". Check your API key, base URL, and network connectivity.");
                out
            },
            TranslateError::EmptyResponse => {
                let mut out = "LLM returned empty response for language '".to_owned();
                out.append(target_lang);
                out.append(
                    "'. The model may not support structured outputs or encountered an error.",
                );
                out
            },
            TranslateError::Unparsable { detail, preview } => {
                let mut out = "Failed to parse LLM JSON response for language '".to_owned();
                out.append(target_lang);
                out.append("':\n  Parse error: ");
                out.append(detail.as_str());
                out.append("\n  Response preview: ");
                out.append(preview.as_str());
                out.append(
                    "\n  This may indicate the model is not following the structured output format.",
                );
                out
            },
            TranslateError::EmptyResult(n) => {
                let mut out = "LLM returned empty translation array for ".to_owned();
                push_decimal(&mut out, *n);
                out.append(" messages in language '");
                out.append(target_lang);
                out.append("'. Expected ");
                push_decimal(&mut out, *n);
                out.append(" translations.");
                out
            },
        }
    }
}

impl LlmTranslator {
    /// The user message for a batch: one block per unit, in batch order.
    pub fn user_prompt(translation_units: &[TranslationUnit]) -> (out: String)
        ensures
            out@ == prompt_text(translation_units.deep_view()),
    {
        let mut out = String::new();
        let mut i: usize = 0;
        while i < translation_units.len()
            invariant
                i <= translation_units.len(),
                out@ == prompt_upto(translation_units.deep_view(), i as int),
            decreases translation_units.len() - i,
        {
            push_block(&mut out, i, &translation_units[i]);
            i += 1;
        }
        out
    }

    /// The system message for a batch.
    pub fn system_content(&self, target_lang: &str, custom_prompt: &Option<String>) -> (out: String)
        ensures
            out@ == system_text(
                self.system_prompt@,
                target_lang@,
                self.project_context@,
                custom_prompt.deep_view(),
            ),
    {
        let custom = match custom_prompt {
            Some(content) => {
                let mut block = "## User Instructions:\n".to_owned();
                block.append(content.as_str());
                block.append("\n");
                block
            },
            None => String::new(),
        };
        let first = substitute(self.system_prompt.as_str(), "{target_lang}", target_lang);
        let second = substitute(
            first.as_str(),
            "{project_context}",
            self.project_context.as_str(),
        );
        substitute(second.as_str(), "{custom_prompt}", custom.as_str())
    }

    /// The first step for a batch: an empty batch is done at once, with an
    /// empty result; any other batch is asked of the backend.
    pub fn prepare(
        &self,
        target_lang: &str,
        translation_units: &[TranslationUnit],
        custom_prompt: &Option<String>,
    ) -> (step: LlmStep)
        ensures
            translation_units.len() == 0 ==> (step matches LlmStep::Done(result)
                && result@.translated.len() == 0 && result@.failed_translated.len() == 0),
            translation_units.len() > 0 ==> (step matches LlmStep::Ask { system, user } && system@
                == system_text(
                self.system_prompt@,
                target_lang@,
                self.project_context@,
                custom_prompt.deep_view(),
            ) && user@ == prompt_text(translation_units.deep_view())),
    {
        if translation_units.len() == 0 {
            return LlmStep::Done(
                TranslationResult { translated: Vec::new(), failed_translated: Vec::new() },
            );
        }
        let user = LlmTranslator::user_prompt(translation_units);
        let system = self.system_content(target_lang, custom_prompt);
        LlmStep::Ask { system, user }
    }

    /// The last step for a batch: what the exchange produced becomes the
    /// result of the batch, or the reason why the whole batch failed. An
    /// empty list of results for a batch that is not empty fails the batch.
    pub fn conclude(translation_units: &[TranslationUnit], reply: BackendReply) -> (r: Result<
        TranslationResult,
        TranslateError,
    >)
        ensures
            outcome_view(r) == concluded(translation_units.deep_view(), reply@),
            r matches Ok(result) ==> partitions(translation_units.deep_view(), result@),
            r matches Ok(result) ==> result.translated.len() + result.failed_translated.len()
                == translation_units.len(),
    {
        match reply {
            BackendReply::BuildFailed(detail) => Err(TranslateError::RequestBuild(detail)),
            BackendReply::CallFailed(detail) => Err(TranslateError::Transport(detail)),
            BackendReply::NoContent => Err(TranslateError::EmptyResponse),
            BackendReply::Unparsable { detail, content } => {
                let preview = preview(content.as_str());
                Err(TranslateError::Unparsable { detail, preview })
            },
            BackendReply::Entries(entries) => {
                if entries.len() == 0 && translation_units.len() > 0 {
                    Err(TranslateError::EmptyResult(translation_units.len()))
                } else {
                    Ok(reconcile(translation_units, &entries))
                }
            },
        }
    }
}

} // verus!
