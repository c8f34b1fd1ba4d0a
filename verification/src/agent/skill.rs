//! A command that looks something up.
//!
//! A skill claims the messages that begin with its trigger, asks its sources and
//! answers with what they found: put together by a language model where there is
//! one and it answers, else as a list of excerpts. Every message that it claims is
//! answered.

use crate::agent::http::MediaWikiSource;
use crate::agent::llm::{
    answer_held, request_of, LlmClient, LlmError, LlmErrorV, LlmRequest, LlmRequestV,
};
use crate::agent::local::{any_cjk, has_ideograph, LocalDocSource};
use crate::agent::repo::{path_joined, slug_of, unless_empty, RepoSource};
use crate::agent::{DocHit, DocHitV, DocumentSource};
use crate::config::{
    llm_default, AgentConfig, AgentV, LlmConfig, LlmV, SkillConfigV, SourceConfig, SourceConfigV,
    DEFAULT_SYSTEM_PROMPT,
};
use crate::router::{
    match_command, query_behind, CommandHandler, CommandInfo, InboundMessage, InboundV, InfoV,
};
use crate::text::{
    a_part_occurs, ascii_lower, begins, bytes_of, decimal, ends, has, join2, join3,
    joining_loses_nothing, prefix, same, same_ignoring_case, texts, trim, trimmed, truncate_chars,
    u64_text, Text,
};
use vstd::prelude::*;

verus! {

/// What a model is told that puts a question into English search words.
pub const TRANSLATE_PROMPT: &'static str = "把下面的问题翻译成适合全文检索的英文关键词（Minecraft 领域术语用官方英文名，如 守卫者→Guardian、刷怪→mob spawning）。只输出关键词本身，不要解释。";

/// One of the sources of documents.
#[derive(Debug, Clone)]
pub enum DocSource {
    Local(LocalDocSource),
    Wiki(MediaWikiSource),
    Repo(RepoSource),
}

/// What a [`DocSource`] holds.
pub enum DocSourceV {
    Local { name: Text, root: Text, extensions: Seq<Text> },
    Wiki { name: Text, api_url: Text, base_url: Text },
    Repo {
        name: Text,
        repo: Text,
        branch: Text,
        subdir: Option<Text>,
        site_url: Option<Text>,
        extensions: Seq<Text>,
        cache_dir: Text,
    },
}

impl View for DocSource {
    type V = DocSourceV;

    open spec fn view(&self) -> DocSourceV {
        match self {
            DocSource::Local(s) => DocSourceV::Local {
                name: s.name@,
                root: s.root@,
                extensions: texts(s.extensions@),
            },
            DocSource::Wiki(s) => DocSourceV::Wiki {
                name: s.name@,
                api_url: s.api_url@,
                base_url: s.base_url@,
            },
            DocSource::Repo(s) => DocSourceV::Repo {
                name: s.name@,
                repo: s.repo@,
                branch: s.branch@,
                subdir: crate::agent::llm::text_held(s.subdir),
                site_url: crate::agent::llm::text_held(s.site_url),
                extensions: texts(s.extensions@),
                cache_dir: s.cache_dir@,
            },
        }
    }
}

impl DocumentSource for DocSource {
    open spec fn label(&self) -> Text {
        match self {
            DocSource::Local(s) => s.label(),
            DocSource::Wiki(s) => s.label(),
            DocSource::Repo(s) => s.label(),
        }
    }

    fn name(&self) -> (r: &String) {
        match self {
            DocSource::Local(s) => s.name(),
            DocSource::Wiki(s) => s.name(),
            DocSource::Repo(s) => s.name(),
        }
    }
}

/// What was found, with the name of its source.
pub type Sourced = (Text, DocHitV);

/// What a list of found documents holds.
pub open spec fn sourced_held(v: Seq<(String, DocHit)>) -> Seq<Sourced> {
    Seq::new(v.len(), |i: int| (v[i].0@, v[i].1@))
}

/// What the sources of a query found.
pub open spec fn per_source_held(v: Seq<(String, Vec<DocHit>)>) -> Seq<(Text, Seq<DocHitV>)> {
    Seq::new(v.len(), |i: int| (v[i].0@, crate::agent::hits_held(v[i].1@)))
}

/// What the sources have at one place of their lists.
pub open spec fn round(per: Seq<(Text, Seq<DocHitV>)>, idx: int) -> Seq<Sourced>
    decreases per.len(),
{
    if per.len() == 0 {
        Seq::empty()
    } else if 0 <= idx < per.last().1.len() {
        round(per.drop_last(), idx).push((per.last().0, per.last().1[idx]))
    } else {
        round(per.drop_last(), idx)
    }
}

/// What the sources have at the first `n` places of their lists, place by place.
pub open spec fn rounds(per: Seq<(Text, Seq<DocHitV>)>, n: nat) -> Seq<Sourced>
    decreases n,
{
    if n == 0 {
        Seq::empty()
    } else {
        rounds(per, (n - 1) as nat) + round(per, n - 1)
    }
}

/// The length of the longest list.
pub open spec fn longest(per: Seq<(Text, Seq<DocHitV>)>) -> nat
    decreases per.len(),
{
    if per.len() == 0 {
        0
    } else if per.last().1.len() > longest(per.drop_last()) {
        per.last().1.len()
    } else {
        longest(per.drop_last())
    }
}

/// The first `max` items of a list.
pub open spec fn at_most<A>(s: Seq<A>, max: nat) -> Seq<A> {
    if s.len() <= max {
        s
    } else {
        s.take(max as int)
    }
}

/// What the sources of a query found, taken in turns: the first of each source, then
/// the second of each, up to `max`.
pub open spec fn interleaved(per: Seq<(Text, Seq<DocHitV>)>, max: nat) -> Seq<Sourced> {
    at_most(rounds(per, longest(per)), max)
}

/// Whether something was found at this place already.
pub open spec fn has_locator(all: Seq<Sourced>, locator: Text) -> bool {
    exists|i: int| 0 <= i < all.len() && (#[trigger] all[i]).1.locator == locator
}

/// A list with what another one adds to it: what is at another place than all that is
/// there, up to `max`.
pub open spec fn absorbed(all: Seq<Sourced>, more: Seq<Sourced>, max: nat) -> Seq<Sourced>
    decreases more.len(),
{
    if more.len() == 0 {
        all
    } else {
        let sofar = absorbed(all, more.drop_last(), max);
        if sofar.len() >= max || has_locator(sofar, more.last().1.locator) {
            sofar
        } else {
            sofar.push(more.last())
        }
    }
}

/// Whether something was found at this place already.
fn is_located(all: &Vec<(String, DocHit)>, locator: &str) -> (r: bool)
    ensures
        r == has_locator(sourced_held(all@), locator@),
{
    let ghost s = sourced_held(all@);
    let mut i: usize = 0;
    while i < all.len()
        invariant
            i <= all@.len(),
            s == sourced_held(all@),
            forall|k: int| 0 <= k < i ==> (#[trigger] s[k]).1.locator != locator@,
        decreases all@.len() - i,
    {
        assert(s[i as int].1.locator == all@[i as int].1@.locator);
        if same(all[i].1.locator.as_str(), locator) {
            return true;
        }
        i = i + 1;
    }
    false
}

/// One line of a list: a title, and where it is from.
pub open spec fn cited(hit: Sourced) -> Text {
    hit.1.title + "（"@ + hit.0 + " · "@ + hit.1.locator + "）"@
}

/// One line of a list: a title, and where it is from.
fn cite(source: &str, hit: &DocHit) -> (r: String)
    ensures
        r@ == cited((source@, hit@)),
{
    let head = join3(hit.title.as_str(), "（", source);
    let full = join3(head.as_str(), " · ", hit.locator.as_str());
    join2(full.as_str(), "）")
}

/// What a model is shown: the question, and what was found, numbered.
pub open spec fn prompt_of(query: Text, hits: Seq<Sourced>) -> Text
    decreases hits.len(),
{
    if hits.len() == 0 {
        "问题："@ + query + "\n\n检索片段："@
    } else {
        prompt_of(query, hits.drop_last()) + "\n["@ + decimal(hits.len()) + "] "@ + cited(
            hits.last(),
        ) + "\n"@ + hits.last().1.snippet
    }
}

/// What a model is shown: the question, and what was found, numbered.
pub fn build_prompt(query: &str, hits: &Vec<(String, DocHit)>) -> (r: String)
    ensures
        r@ == prompt_of(query@, sourced_held(hits@)),
{
    let ghost s = sourced_held(hits@);
    let mut out = join3("问题：", query, "\n\n检索片段：");
    let mut i: usize = 0;
    assert(s.take(0) =~= Seq::empty());
    while i < hits.len()
        invariant
            i <= hits@.len(),
            s == sourced_held(hits@),
            out@ == prompt_of(query@, s.take(i as int)),
        decreases hits@.len() - i,
    {
        assert(s.take(i + 1).drop_last() =~= s.take(i as int));
        assert(s.take(i + 1).last() == s[i as int]);
        let no = u64_text((i + 1) as u64);
        let head = join3(out.as_str(), "\n[", no.as_str());
        let line = cite(hits[i].0.as_str(), &hits[i].1);
        let full = join3(head.as_str(), "] ", line.as_str());
        out = join3(full.as_str(), "\n", hits[i].1.snippet.as_str());
        i = i + 1;
    }
    assert(s.take(i as int) =~= s);
    out
}

/// A list of what was found, numbered, with what is to be shown of it.
pub open spec fn excerpts_of(trigger: Text, hits: Seq<Sourced>) -> Text
    decreases hits.len(),
{
    if hits.len() == 0 {
        trigger + " 检索结果："@
    } else {
        let gap = if hits.len() > 1 {
            "\n\n"@
        } else {
            "\n"@
        };
        let line = excerpts_of(trigger, hits.drop_last()) + gap + decimal(hits.len()) + ". "@
            + cited(hits.last());
        if hits.last().1.snippet.len() == 0 {
            line
        } else {
            line + "\n"@ + hits.last().1.snippet
        }
    }
}

/// A text with a mark where it is longer than `max` characters and was cut there.
pub open spec fn truncated(text: Text, max: nat) -> Text {
    if text.len() <= max {
        text
    } else {
        prefix(text, max) + "…（已截断）"@
    }
}

/// A text with a mark where it is longer than `max_chars` characters and was cut there.
pub fn truncate_answer(text: &str, max_chars: usize) -> (r: String)
    ensures
        r@ == truncated(text@, max_chars as nat),
{
    let v = crate::text::chars_of(text);
    if v.len() <= max_chars {
        text.to_owned()
    } else {
        let head = truncate_chars(text, max_chars);
        join2(head.as_str(), "…（已截断）")
    }
}

/// An answer that is not too long stays as it is; one that is begins with as much of
/// it as may be shown.
pub proof fn a_cut_answer_begins_as_it_was(text: Text, max: nat)
    ensures
        text.len() <= max ==> truncated(text, max) == text,
        text.len() > max ==> truncated(text, max).subrange(0, max as int) == text.subrange(
            0,
            max as int,
        ),
{
    if text.len() > max {
        assert(truncated(text, max).subrange(0, max as int) =~= text.subrange(0, max as int));
    }
}

/// What to do about a message.
#[derive(Debug)]
pub enum SkillStep {
    /// It is not for this skill.
    Pass,
    /// Answer with this.
    Say(String),
    /// Ask the model to put the query into English first.
    Translate { query: String, request: LlmRequest },
    /// Answer this query.
    Search { query: String },
}

/// What a [`SkillStep`] says.
pub enum SkillStepV {
    Pass,
    Say(Text),
    Translate { query: Text, request: LlmRequestV },
    Search { query: Text },
}

impl View for SkillStep {
    type V = SkillStepV;

    open spec fn view(&self) -> SkillStepV {
        match self {
            SkillStep::Pass => SkillStepV::Pass,
            SkillStep::Say(t) => SkillStepV::Say(t@),
            SkillStep::Translate { query, request } => SkillStepV::Translate {
                query: query@,
                request: request@,
            },
            SkillStep::Search { query } => SkillStepV::Search { query: query@ },
        }
    }
}

/// What a skill does first with a text.
pub open spec fn first_step(trigger: Text, llm: Option<LlmV>, text: Text) -> SkillStepV {
    match query_behind(text, trigger) {
        None => SkillStepV::Pass,
        Some(q) => if q.len() == 0 {
            SkillStepV::Say("用法："@ + trigger + " <查询词>"@)
        } else if has_ideograph(q) && llm is Some {
            SkillStepV::Translate { query: q, request: request_of(llm->0, TRANSLATE_PROMPT@, q) }
        } else {
            SkillStepV::Search { query: q }
        },
    }
}

/// A query that is being answered.
#[derive(Debug)]
pub struct SkillRun {
    pub query: String,
    /// What the sources are asked.
    pub queries: Vec<String>,
    /// How many of these they were asked.
    pub asked: usize,
    pub found: Vec<(String, DocHit)>,
}

/// What a [`SkillRun`] holds.
pub struct SkillRunV {
    pub query: Text,
    pub queries: Seq<Text>,
    pub asked: nat,
    pub found: Seq<Sourced>,
}

impl View for SkillRun {
    type V = SkillRunV;

    open spec fn view(&self) -> SkillRunV {
        SkillRunV {
            query: self.query@,
            queries: texts(self.queries@),
            asked: self.asked as nat,
            found: sourced_held(self.found@),
        }
    }
}

impl SkillRunV {
    /// Nothing was found twice, and no more than may be shown.
    pub open spec fn wf(self, max: nat) -> bool {
        &&& self.asked <= self.queries.len()
        &&& self.found.len() <= max
        &&& places_differ(self.found)
    }

    /// Whether the sources are asked another query: there is one, and what was found
    /// does not fill the list.
    pub open spec fn goes_on(self, max: nat) -> bool {
        self.asked < self.queries.len() && (self.found.len() == 0 || self.found.len() < max)
    }
}

/// What to do next to answer a query.
#[derive(Debug)]
pub enum RunStep {
    /// Ask all sources this.
    Ask(String),
    /// Have the model answer.
    Model(LlmRequest),
    /// Answer with this.
    Say(String),
}

/// What a [`RunStep`] holds.
pub enum RunStepV {
    Ask(Text),
    Model(LlmRequestV),
    Say(Text),
}

impl View for RunStep {
    type V = RunStepV;

    open spec fn view(&self) -> RunStepV {
        match self {
            RunStep::Ask(q) => RunStepV::Ask(q@),
            RunStep::Model(r) => RunStepV::Model(r@),
            RunStep::Say(t) => RunStepV::Say(t@),
        }
    }
}

/// A query that is being answered, after the sources were asked once more.
pub open spec fn run_after(
    run: SkillRunV,
    per: Seq<(Text, Seq<DocHitV>)>,
    max: nat,
) -> SkillRunV {
    SkillRunV {
        asked: run.asked + 1,
        found: absorbed(run.found, interleaved(per, max), max),
        ..run
    }
}

/// What to do next to answer a query: ask the sources while that may add something,
/// then the model, where there is one and something was found.
pub open spec fn next_step(skill: SkillV, run: SkillRunV) -> RunStepV {
    if run.goes_on(skill.max_results) {
        RunStepV::Ask(run.queries[run.asked as int])
    } else if skill.llm is Some && run.found.len() > 0 {
        RunStepV::Model(
            request_of(
                skill.llm->0,
                system_of(skill.llm->0),
                prompt_of(run.query, run.found),
            ),
        )
    } else {
        RunStepV::Say(final_text(skill, run.query, run.found, None))
    }
}

/// A command that looks something up.
#[derive(Debug)]
pub struct DocQuerySkill {
    pub name: String,
    pub trigger: String,
    pub description: String,
    pub sources: Vec<DocSource>,
    pub llm: Option<LlmClient>,
    pub max_results: usize,
    pub max_answer_chars: usize,
}

/// What a [`DocQuerySkill`] holds.
pub struct SkillV {
    pub name: Text,
    pub trigger: Text,
    pub description: Text,
    pub sources: Seq<DocSourceV>,
    pub llm: Option<LlmV>,
    pub max_results: nat,
    pub max_answer_chars: nat,
}

/// What a list of sources holds.
pub open spec fn doc_sources_held(v: Seq<DocSource>) -> Seq<DocSourceV> {
    Seq::new(v.len(), |i: int| v[i]@)
}

impl View for DocQuerySkill {
    type V = SkillV;

    open spec fn view(&self) -> SkillV {
        SkillV {
            name: self.name@,
            trigger: self.trigger@,
            description: self.description@,
            sources: doc_sources_held(self.sources@),
            llm: match self.llm {
                Some(c) => Some(c.cfg@),
                None => None,
            },
            max_results: self.max_results as nat,
            max_answer_chars: self.max_answer_chars as nat,
        }
    }
}

impl CommandHandler for DocQuerySkill {
    open spec fn claims(&self, msg: InboundV) -> bool {
        query_behind(msg.text, self.trigger@) is Some
    }

    open spec fn about(&self) -> InfoV {
        InfoV {
            name: self.name@,
            aliases: Seq::empty(),
            trigger: self.trigger@,
            description: self.description@,
        }
    }

    fn info(&self) -> (r: CommandInfo) {
        let aliases: Vec<String> = Vec::new();
        assert(texts(aliases@) =~= Seq::empty());
        CommandInfo {
            name: self.name.clone(),
            aliases,
            trigger: self.trigger.clone(),
            description: self.description.clone(),
        }
    }

    fn matches(&self, msg: &InboundMessage) -> (r: bool) {
        match_command(msg.text.as_str(), self.trigger.as_str()).is_some()
    }
}

/// The queries to ask the sources: the one that was asked, and what the model made of
/// it where that is something else.
pub open spec fn queries_of(query: Text, answer: Result<Text, LlmErrorV>) -> Seq<Text> {
    match answer {
        Ok(t) => if trimmed(t).len() > 0 && ascii_lower(trimmed(t)) != ascii_lower(query) {
            seq![query, trimmed(t)]
        } else {
            seq![query]
        },
        Err(_) => seq![query],
    }
}

/// What the model is told before a question.
pub open spec fn system_of(cfg: LlmV) -> Text {
    if cfg.system_prompt.len() == 0 {
        DEFAULT_SYSTEM_PROMPT@
    } else {
        cfg.system_prompt
    }
}

/// What is answered where nothing was found.
pub open spec fn not_found_text(trigger: Text, query: Text) -> Text {
    trigger + " 没查到与「"@ + query + "」相关的内容"@
}

/// What is answered: that nothing was found, or what the model made of it, or the
/// list of what was found.
pub open spec fn final_text(
    skill: SkillV,
    query: Text,
    hits: Seq<Sourced>,
    answer: Option<Result<Text, LlmErrorV>>,
) -> Text {
    if hits.len() == 0 {
        not_found_text(skill.trigger, query)
    } else {
        truncated(
            match answer {
                Some(Ok(t)) if trimmed(t).len() > 0 => t,
                _ => excerpts_of(skill.trigger, hits),
            },
            skill.max_answer_chars,
        )
    }
}

/// What an answer holds, where one was asked for.
pub open spec fn maybe_answer(r: Option<Result<String, LlmError>>) -> Option<
    Result<Text, LlmErrorV>,
> {
    match r {
        Some(a) => Some(answer_held(a)),
        None => None,
    }
}

impl DocQuerySkill {
    /// A skill; without a model it answers with excerpts.
    pub fn new(
        name: &str,
        trigger: &str,
        description: &str,
        sources: Vec<DocSource>,
        llm: Option<LlmClient>,
        max_results: usize,
        max_answer_chars: usize,
    ) -> (r: Self)
        ensures
            r.name@ == name@,
            r.trigger@ == trigger@,
            r.description@ == description@,
            r.sources == sources,
            r.llm == llm,
            r.max_results == max_results,
            r.max_answer_chars == max_answer_chars,
    {
        DocQuerySkill {
            name: name.to_owned(),
            trigger: trigger.to_owned(),
            description: description.to_owned(),
            sources,
            llm,
            max_results,
            max_answer_chars,
        }
    }

    /// What to do about a message: without a query, say how to use the skill; with
    /// ideographs in it, have it put into English where there is a model; else ask
    /// the sources.
    pub fn handle(&self, msg: &InboundMessage) -> (r: SkillStep)
        ensures
            match query_behind(msg@.text, self@.trigger) {
                None => r is Pass,
                Some(q) => if q.len() == 0 {
                    r is Say && r->Say_0@ == "用法："@ + self@.trigger + " <查询词>"@
                } else if has_ideograph(q) && self@.llm is Some {
                    &&& r is Translate
                    &&& r->Translate_query@ == q
                    &&& r->request@ == request_of(self@.llm->0, TRANSLATE_PROMPT@, q)
                } else {
                    r is Search && r->Search_query@ == q
                },
            },
            r@ == first_step(self@.trigger, self@.llm, msg@.text),
    {
        let query = match match_command(msg.text.as_str(), self.trigger.as_str()) {
            Some(q) => q,
            None => return SkillStep::Pass,
        };
        if query.as_str().is_empty() {
            return SkillStep::Say(join3("用法：", self.trigger.as_str(), " <查询词>"));
        }
        match &self.llm {
            Some(llm) => if any_cjk(query.as_str()) {
                let request = llm.complete(TRANSLATE_PROMPT, query.as_str());
                SkillStep::Translate { query, request }
            } else {
                SkillStep::Search { query }
            },
            None => SkillStep::Search { query },
        }
    }

    /// The queries to ask the sources, once the model has been asked to put one into
    /// English.
    pub fn translated(query: &str, answer: Result<String, LlmError>) -> (r: Vec<String>)
        ensures
            texts(r@) == queries_of(query@, answer_held(answer)),
    {
        let mut out: Vec<String> = Vec::new();
        out.push(query.to_owned());
        assert(texts(out@) =~= seq![query@]);
        match answer {
            Ok(t) => {
                let bare = trim(t.as_str());
                if !bare.as_str().is_empty() && !same_ignoring_case(bare.as_str(), query) {
                    let ghost b = bare@;
                    out.push(bare);
                    assert(texts(out@) =~= seq![query@, b]);
                }
            },
            Err(_) => {},
        }
        out
    }

    /// What the sources of a query found, taken in turns.
    pub fn search_merged(&self, per_source: &Vec<(String, Vec<DocHit>)>) -> (r: Vec<
        (String, DocHit),
    >)
        ensures
            sourced_held(r@) == interleaved(per_source_held(per_source@), self@.max_results),
    {
        let ghost per = per_source_held(per_source@);
        let mut most: usize = 0;
        let mut k: usize = 0;
        assert(per.take(0) =~= Seq::empty());
        while k < per_source.len()
            invariant
                k <= per_source@.len(),
                per == per_source_held(per_source@),
                most == longest(per.take(k as int)),
            decreases per_source@.len() - k,
        {
            assert(per.take(k + 1).drop_last() =~= per.take(k as int));
            assert(per.take(k + 1).last() == per[k as int]);
            assert(per[k as int].1.len() == per_source@[k as int].1@.len());
            if per_source[k].1.len() > most {
                most = per_source[k].1.len();
            }
            k = k + 1;
        }
        assert(per.take(k as int) =~= per);
        let mut all: Vec<(String, DocHit)> = Vec::new();
        let mut idx: usize = 0;
        assert(sourced_held(all@) =~= rounds(per, 0));
        while idx < most
            invariant
                idx <= most,
                per == per_source_held(per_source@),
                sourced_held(all@) == rounds(per, idx as nat),
            decreases most - idx,
        {
            let ghost first = sourced_held(all@);
            let mut i: usize = 0;
            assert(per.take(0) =~= Seq::empty());
            assert(sourced_held(all@) =~= first + round(per.take(0), idx as int));
            while i < per_source.len()
                invariant
                    i <= per_source@.len(),
                    per == per_source_held(per_source@),
                    sourced_held(all@) == first + round(per.take(i as int), idx as int),
                decreases per_source@.len() - i,
            {
                assert(per.take(i + 1).drop_last() =~= per.take(i as int));
                assert(per.take(i + 1).last() == per[i as int]);
                let ghost held = all@;
                let hits = &per_source[i].1;
                if idx < hits.len() {
                    let one = (per_source[i].0.clone(), hits[idx].copy());
                    let ghost ov = (one.0@, one.1@);
                    all.push(one);
                    assert(ov == (per[i as int].0, per[i as int].1[idx as int]));
                    assert(sourced_held(all@) =~= sourced_held(held).push(ov));
                    assert(sourced_held(all@) =~= first + round(
                        per.take(i as int),
                        idx as int,
                    ).push(ov));
                }
                i = i + 1;
            }
            assert(per.take(i as int) =~= per);
            idx = idx + 1;
        }
        let ghost whole = sourced_held(all@);
        if all.len() > self.max_results {
            all.truncate(self.max_results);
            assert(sourced_held(all@) =~= whole.take(self.max_results as int));
        }
        all
    }

    /// Adds what another query found, where it is not there yet.
    fn absorb(&self, all: &mut Vec<(String, DocHit)>, more: &Vec<(String, DocHit)>)
        ensures
            sourced_held(final(all)@) == absorbed(
                sourced_held(old(all)@),
                sourced_held(more@),
                self@.max_results,
            ),
    {
        let ghost first = sourced_held(all@);
        let ghost m = sourced_held(more@);
        let mut i: usize = 0;
        assert(m.take(0) =~= Seq::empty());
        while i < more.len()
            invariant
                i <= more@.len(),
                m == sourced_held(more@),
                sourced_held(all@) == absorbed(first, m.take(i as int), self@.max_results),
            decreases more@.len() - i,
        {
            assert(m.take(i + 1).drop_last() =~= m.take(i as int));
            assert(m.take(i + 1).last() == m[i as int]);
            assert(sourced_held(all@).len() == all@.len());
            if all.len() < self.max_results && !is_located(all, more[i].1.locator.as_str()) {
                let ghost held = all@;
                all.push((more[i].0.clone(), more[i].1.copy()));
                assert(sourced_held(all@) =~= sourced_held(held).push(m[i as int]));
            }
            i = i + 1;
        }
        assert(m.take(i as int) =~= m);
    }

    /// The request that has the model answer a question from what was found; nothing
    /// where there is no model or nothing was found.
    pub fn answer(&self, query: &str, hits: &Vec<(String, DocHit)>) -> (r: Option<LlmRequest>)
        ensures
            r is Some <==> self@.llm is Some && hits@.len() > 0,
            r matches Some(q) ==> q@ == request_of(
                self@.llm->0,
                system_of(self@.llm->0),
                prompt_of(query@, sourced_held(hits@)),
            ),
    {
        if hits.len() == 0 {
            return None;
        }
        match &self.llm {
            Some(llm) => {
                let user = build_prompt(query, hits);
                if llm.system_prompt().as_str().is_empty() {
                    Some(llm.complete(DEFAULT_SYSTEM_PROMPT, user.as_str()))
                } else {
                    Some(llm.complete(llm.system_prompt().as_str(), user.as_str()))
                }
            },
            None => None,
        }
    }

    /// Begins to answer a query: `answer` is what the model made of it, where it was
    /// asked to put it into English.
    pub fn search_queries(&self, query: String, answer: Option<Result<String, LlmError>>) -> (r:
        SkillRun)
        ensures
            r@ == (SkillRunV {
                query: query@,
                queries: match answer {
                    Some(a) => queries_of(query@, answer_held(a)),
                    None => seq![query@],
                },
                asked: 0,
                found: Seq::empty(),
            }),
            r@.wf(self@.max_results),
    {
        let queries = match answer {
            Some(a) => Self::translated(query.as_str(), a),
            None => {
                let one: Vec<String> = vec![query.clone()];
                assert(texts(one@) =~= seq![query@]);
                one
            },
        };
        let found: Vec<(String, DocHit)> = Vec::new();
        assert(sourced_held(found@) =~= Seq::empty());
        SkillRun { query, queries, asked: 0, found }
    }

    /// What to do next to answer a query.
    pub fn step(&self, run: &SkillRun) -> (r: RunStep)
        ensures
            r@ == next_step(self@, run@),
    {
        assert(sourced_held(run.found@).len() == run.found@.len());
        assert(texts(run.queries@).len() == run.queries@.len());
        if run.asked < run.queries.len() && (run.found.len() == 0 || run.found.len()
            < self.max_results) {
            assert(texts(run.queries@)[run.asked as int] == run.queries@[run.asked as int]@);
            return RunStep::Ask(run.queries[run.asked].clone());
        }
        match self.answer(run.query.as_str(), &run.found) {
            Some(request) => RunStep::Model(request),
            None => RunStep::Say(self.reply(run.query.as_str(), &run.found, None)),
        }
    }

    /// Takes what the sources found for the query that they were asked.
    pub fn searched(&self, run: &mut SkillRun, per_source: &Vec<(String, Vec<DocHit>)>)
        requires
            old(run).asked < old(run).queries@.len(),
        ensures
            final(run)@ == (SkillRunV {
                asked: old(run)@.asked + 1,
                found: absorbed(
                    old(run)@.found,
                    interleaved(per_source_held(per_source@), self@.max_results),
                    self@.max_results,
                ),
                ..old(run)@
            }),
            old(run)@.wf(self@.max_results) ==> final(run)@.wf(self@.max_results),
            final(run)@ == run_after(old(run)@, per_source_held(per_source@), self@.max_results),
    {
        let ghost first = run@;
        let merged = self.search_merged(per_source);
        proof {
            if first.wf(self@.max_results) {
                merging_keeps_to_the_limit(
                    per_source_held(per_source@),
                    first.found,
                    sourced_held(merged@),
                    self@.max_results,
                );
                merging_shows_nothing_twice(
                    first.found,
                    sourced_held(merged@),
                    self@.max_results,
                );
            }
        }
        self.absorb(&mut run.found, &merged);
        assert(run.asked < run.queries.len());
        run.asked = run.asked + 1;
    }

    /// What is answered once the model has spoken.
    pub fn answered(&self, run: &SkillRun, answer: Result<String, LlmError>) -> (r: String)
        ensures
            r@ == final_text(self@, run@.query, run@.found, Some(answer_held(answer))),
    {
        self.reply(run.query.as_str(), &run.found, Some(answer))
    }

    /// A list of what was found.
    fn excerpts(&self, hits: &Vec<(String, DocHit)>) -> (r: String)
        ensures
            r@ == excerpts_of(self.trigger@, sourced_held(hits@)),
    {
        let ghost s = sourced_held(hits@);
        let mut out = join2(self.trigger.as_str(), " 检索结果：");
        let mut i: usize = 0;
        assert(s.take(0) =~= Seq::empty());
        while i < hits.len()
            invariant
                i <= hits@.len(),
                s == sourced_held(hits@),
                out@ == excerpts_of(self.trigger@, s.take(i as int)),
            decreases hits@.len() - i,
        {
            assert(s.take(i + 1).drop_last() =~= s.take(i as int));
            assert(s.take(i + 1).last() == s[i as int]);
            let no = u64_text((i + 1) as u64);
            let head = if i > 0 {
                join3(out.as_str(), "\n\n", no.as_str())
            } else {
                join3(out.as_str(), "\n", no.as_str())
            };
            let line = cite(hits[i].0.as_str(), &hits[i].1);
            let full = join3(head.as_str(), ". ", line.as_str());
            if hits[i].1.snippet.as_str().is_empty() {
                out = full;
            } else {
                out = join3(full.as_str(), "\n", hits[i].1.snippet.as_str());
            }
            i = i + 1;
        }
        assert(s.take(i as int) =~= s);
        out
    }

    /// What is answered in the end: `answer` is what the model said, where it was
    /// asked.
    pub fn reply(
        &self,
        query: &str,
        hits: &Vec<(String, DocHit)>,
        answer: Option<Result<String, LlmError>>,
    ) -> (r: String)
        ensures
            r@ == final_text(self@, query@, sourced_held(hits@), maybe_answer(answer)),
    {
        if hits.len() == 0 {
            let head = join3(self.trigger.as_str(), " 没查到与「", query);
            return join2(head.as_str(), "」相关的内容");
        }
        let text = match answer {
            Some(Ok(t)) => {
                let bare = trim(t.as_str());
                if bare.as_str().is_empty() {
                    self.excerpts(hits)
                } else {
                    t
                }
            },
            _ => self.excerpts(hits),
        };
        truncate_answer(text.as_str(), self.max_answer_chars)
    }
}

/// What is merged is no more than a skill may show.
pub proof fn merging_keeps_to_the_limit(
    per: Seq<(Text, Seq<DocHitV>)>,
    all: Seq<Sourced>,
    more: Seq<Sourced>,
    max: nat,
)
    requires
        all.len() <= max,
    ensures
        interleaved(per, max).len() <= max,
        absorbed(all, more, max).len() <= max,
    decreases more.len(),
{
    if more.len() > 0 {
        merging_keeps_to_the_limit(per, all, more.drop_last(), max);
    }
}

/// Whether all that was found is at places that differ.
pub open spec fn places_differ(all: Seq<Sourced>) -> bool {
    forall|i: int, k: int|
        0 <= i < k < all.len() ==> (#[trigger] all[i]).1.locator != (#[trigger] all[k]).1.locator
}

/// Nothing is shown twice: what is merged is at places that differ.
pub proof fn merging_shows_nothing_twice(all: Seq<Sourced>, more: Seq<Sourced>, max: nat)
    requires
        places_differ(all),
    ensures
        places_differ(absorbed(all, more, max)),
    decreases more.len(),
{
    if more.len() > 0 {
        merging_shows_nothing_twice(all, more.drop_last(), max);
    }
}

/// As long as the list is not full the sources are asked every query, the one that was
/// asked first; what the model made of it comes second.
pub proof fn every_query_is_asked(
    skill: SkillV,
    query: Text,
    answer: Result<Text, LlmErrorV>,
    run: SkillRunV,
)
    requires
        run.queries == queries_of(query, answer),
        run.found.len() == 0 || run.found.len() < skill.max_results,
    ensures
        run.asked == 0 ==> next_step(skill, run) == RunStepV::Ask(query),
        run.asked == 1 && queries_of(query, answer).len() == 2 ==> next_step(skill, run)
            == RunStepV::Ask(trimmed(answer->Ok_0)),
        run.asked >= queries_of(query, answer).len() ==> !(next_step(skill, run) is Ask),
{
}

/// A failing model does not leave a question without an answer: what is said is then
/// the list of what was found, as it is without a model.
pub proof fn a_failing_model_changes_nothing(
    skill: SkillV,
    query: Text,
    hits: Seq<Sourced>,
    error: LlmErrorV,
)
    ensures
        final_text(skill, query, hits, Some(Err(error))) == final_text(skill, query, hits, None),
{
}

/// Whether a source can be asked: a directory that is there, a site or a repository
/// that is named.
pub open spec fn usable(source: SourceConfigV, roots: Seq<Text>) -> bool {
    match source {
        SourceConfigV::Local { root, .. } => roots.contains(root),
        SourceConfigV::Mediawiki { api_url, .. } => api_url.len() > 0,
        SourceConfigV::Repo { repo, .. } => repo.len() > 0,
    }
}

/// The source that is configured.
pub open spec fn source_of(source: SourceConfigV, cache_root: Text) -> DocSourceV {
    match source {
        SourceConfigV::Local { root, extensions, name } => DocSourceV::Local {
            name,
            root,
            extensions: crate::agent::local::endings(extensions),
        },
        SourceConfigV::Mediawiki { api_url, name } => DocSourceV::Wiki {
            name,
            api_url,
            base_url: crate::agent::http::site_of(api_url),
        },
        SourceConfigV::Repo { repo, branch, subdir, site_url, extensions, name } =>
            DocSourceV::Repo {
                name,
                repo,
                branch,
                subdir: unless_empty(subdir),
                site_url: unless_empty(site_url),
                extensions,
                cache_dir: path_joined(cache_root, slug_of(repo)),
            },
    }
}

/// The sources that can be asked.
pub open spec fn usable_sources(s: Seq<SourceConfigV>, roots: Seq<Text>, cache_root: Text) -> Seq<
    DocSourceV,
>
    decreases s.len(),
{
    if s.len() == 0 {
        Seq::empty()
    } else if usable(s.last(), roots) {
        usable_sources(s.drop_last(), roots, cache_root).push(source_of(s.last(), cache_root))
    } else {
        usable_sources(s.drop_last(), roots, cache_root)
    }
}

/// The model that is configured, where it has an address.
pub open spec fn model_of(cfg: AgentV) -> Option<LlmV> {
    match cfg.llm {
        Some(llm) if llm.api_url.len() > 0 => Some(llm),
        _ => None,
    }
}

/// The skill that is configured.
pub open spec fn skill_of(
    skill: SkillConfigV,
    cfg: AgentV,
    roots: Seq<Text>,
    cache_root: Text,
) -> SkillV {
    SkillV {
        name: skill.name,
        trigger: if skill.trigger.len() == 0 {
            "!"@ + skill.name
        } else {
            skill.trigger
        },
        description: skill.description,
        sources: usable_sources(skill.sources, roots, cache_root),
        llm: model_of(cfg),
        max_results: skill.max_results as nat,
        max_answer_chars: match cfg.llm {
            Some(llm) => llm.max_answer_chars as nat,
            None => llm_default().max_answer_chars as nat,
        },
    }
}

/// The skills among the first `n` that are configured which have a source to ask.
pub open spec fn skills_of(cfg: AgentV, roots: Seq<Text>, cache_root: Text, n: nat) -> Seq<SkillV>
    decreases n,
{
    if n == 0 {
        Seq::empty()
    } else {
        let rest = skills_of(cfg, roots, cache_root, (n - 1) as nat);
        let skill = skill_of(cfg.skills[n - 1], cfg, roots, cache_root);
        if skill.sources.len() == 0 {
            rest
        } else {
            rest.push(skill)
        }
    }
}

/// What a list of skills holds.
pub open spec fn skills_built(v: Seq<DocQuerySkill>) -> Seq<SkillV> {
    Seq::new(v.len(), |i: int| v[i]@)
}

/// Whether a text is in a list.
fn is_listed(all: &Vec<String>, text: &str) -> (r: bool)
    ensures
        r == texts(all@).contains(text@),
{
    let ghost t = texts(all@);
    let mut i: usize = 0;
    while i < all.len()
        invariant
            i <= all@.len(),
            t == texts(all@),
            forall|k: int| 0 <= k < i ==> t[k] != text@,
        decreases all@.len() - i,
    {
        if same(all[i].as_str(), text) {
            assert(t[i as int] == text@);
            return true;
        }
        i = i + 1;
    }
    false
}

/// The source that is configured, where it can be asked.
fn build_source(source: &SourceConfig, roots: &Vec<String>, cache_root: &str) -> (r: Option<
    DocSource,
>)
    ensures
        match r {
            Some(s) => usable(source@, texts(roots@)) && s@ == source_of(source@, cache_root@),
            None => !usable(source@, texts(roots@)),
        },
{
    match source {
        SourceConfig::Local { root, extensions, name } => {
            if !is_listed(roots, root.as_str()) {
                return None;
            }
            Some(
                DocSource::Local(LocalDocSource::new(name.as_str(), root.as_str(), extensions)),
            )
        },
        SourceConfig::Mediawiki { api_url, name } => {
            if api_url.as_str().is_empty() {
                return None;
            }
            Some(DocSource::Wiki(MediaWikiSource::new(name.as_str(), api_url.as_str())))
        },
        SourceConfig::Repo { repo, branch, subdir, site_url, extensions, name } => {
            if repo.as_str().is_empty() {
                return None;
            }
            Some(
                DocSource::Repo(
                    RepoSource::new(
                        name.as_str(),
                        repo.as_str(),
                        branch.as_str(),
                        subdir.as_str(),
                        site_url.as_str(),
                        extensions,
                        cache_root,
                    ),
                ),
            )
        },
    }
}

/// The sources that can be asked.
fn build_sources(all: &Vec<SourceConfig>, roots: &Vec<String>, cache_root: &str) -> (r: Vec<
    DocSource,
>)
    ensures
        doc_sources_held(r@) == usable_sources(
            crate::config::sources_held(all@),
            texts(roots@),
            cache_root@,
        ),
{
    let ghost s = crate::config::sources_held(all@);
    let mut out: Vec<DocSource> = Vec::new();
    let mut i: usize = 0;
    assert(doc_sources_held(out@) =~= usable_sources(s.take(0), texts(roots@), cache_root@));
    while i < all.len()
        invariant
            i <= all@.len(),
            s == crate::config::sources_held(all@),
            doc_sources_held(out@) == usable_sources(
                s.take(i as int),
                texts(roots@),
                cache_root@,
            ),
        decreases all@.len() - i,
    {
        assert(s.take(i + 1).drop_last() =~= s.take(i as int));
        assert(s.take(i + 1).last() == all@[i as int]@);
        match build_source(&all[i], roots, cache_root) {
            Some(one) => {
                let ghost held = out@;
                let ghost ov = one@;
                out.push(one);
                assert(doc_sources_held(out@) =~= doc_sources_held(held).push(ov));
            },
            None => {},
        }
        i = i + 1;
    }
    assert(s.take(i as int) =~= s);
    out
}

/// The model that is configured, where it has an address.
fn build_model(cfg: &AgentConfig) -> (r: Option<LlmClient>)
    ensures
        match r {
            Some(c) => model_of(cfg@) == Some(c.cfg@),
            None => model_of(cfg@) is None,
        },
{
    match &cfg.llm {
        Some(llm) => {
            if llm.api_url.as_str().is_empty() {
                return None;
            }
            Some(
                LlmClient {
                    cfg: LlmConfig {
                        api_url: llm.api_url.clone(),
                        api_key: llm.api_key.clone(),
                        model: llm.model.clone(),
                        timeout_secs: llm.timeout_secs,
                        max_answer_chars: llm.max_answer_chars,
                        system_prompt: llm.system_prompt.clone(),
                    },
                },
            )
        },
        None => None,
    }
}

/// The skills that are configured. A source that cannot be asked is left out, and so
/// is a skill without any source. `roots` are the directories that are there, and
/// under `cache_root` repositories are kept.
pub fn build_skills(cfg: &AgentConfig, roots: &Vec<String>, cache_root: &str) -> (r: Vec<
    DocQuerySkill,
>)
    ensures
        skills_built(r@) == if cfg@.enabled {
            skills_of(cfg@, texts(roots@), cache_root@, cfg@.skills.len())
        } else {
            Seq::empty()
        },
{
    let mut out: Vec<DocQuerySkill> = Vec::new();
    assert(skills_built(out@) =~= Seq::empty());
    if !cfg.enabled {
        return out;
    }
    let ghost c = cfg@;
    let max_answer_chars = match &cfg.llm {
        Some(llm) => llm.max_answer_chars,
        None => LlmConfig::default().max_answer_chars,
    };
    let mut i: usize = 0;
    while i < cfg.skills.len()
        invariant
            i <= cfg.skills@.len(),
            c == cfg@,
            max_answer_chars == (match c.llm {
                Some(llm) => llm.max_answer_chars,
                None => llm_default().max_answer_chars,
            }),
            skills_built(out@) == skills_of(c, texts(roots@), cache_root@, i as nat),
        decreases cfg.skills@.len() - i,
    {
        let skill = &cfg.skills[i];
        assert(c.skills[i as int] == skill@);
        let sources = build_sources(&skill.sources, roots, cache_root);
        assert(doc_sources_held(sources@).len() == sources@.len());
        if sources.len() > 0 {
            let trigger = if skill.trigger.as_str().is_empty() {
                join2("!", skill.name.as_str())
            } else {
                skill.trigger.clone()
            };
            let one = DocQuerySkill::new(
                skill.name.as_str(),
                trigger.as_str(),
                skill.description.as_str(),
                sources,
                build_model(cfg),
                skill.max_results,
                max_answer_chars,
            );
            let ghost held = out@;
            let ghost ov = one@;
            out.push(one);
            assert(skills_built(out@) =~= skills_built(held).push(ov));
        }
        i = i + 1;
    }
    out
}

/// The length of a trigger, in bytes.
pub open spec fn trigger_len(s: DocQuerySkill) -> nat {
    vstd::utf8::encode_utf8(s.trigger@).len()
}

/// A list in order with one skill more, behind those whose triggers are not shorter.
pub open spec fn with_skill(s: Seq<DocQuerySkill>, x: DocQuerySkill) -> Seq<DocQuerySkill>
    decreases s.len(),
{
    if s.len() > 0 && trigger_len(x) > trigger_len(s.last()) {
        with_skill(s.drop_last(), x).push(s.last())
    } else {
        s.push(x)
    }
}

/// Skills with longer triggers before those with shorter ones.
pub open spec fn by_length(s: Seq<DocQuerySkill>) -> Seq<DocQuerySkill>
    decreases s.len(),
{
    if s.len() == 0 {
        Seq::empty()
    } else {
        with_skill(by_length(s.drop_last()), s.last())
    }
}

proof fn lemma_with_skill(s: Seq<DocQuerySkill>, x: DocQuerySkill, p: int)
    requires
        0 <= p <= s.len(),
        forall|k: int| p <= k < s.len() ==> trigger_len(x) > trigger_len(#[trigger] s[k]),
        p > 0 ==> !(trigger_len(x) > trigger_len(s[p - 1])),
    ensures
        with_skill(s, x) == s.insert(p, x),
    decreases s.len(),
{
    if p == s.len() {
        assert(s.insert(p, x) =~= s.push(x));
    } else {
        assert(trigger_len(x) > trigger_len(s[s.len() - 1]));
        lemma_with_skill(s.drop_last(), x, p);
        assert(s.drop_last().insert(p, x).push(s.last()) =~= s.insert(p, x));
    }
}

/// Puts skills with longer triggers before those with shorter ones, and otherwise
/// keeps their order.
pub fn longest_first(skills: Vec<DocQuerySkill>) -> (r: Vec<DocQuerySkill>)
    ensures
        r@ == by_length(skills@),
{
    let ghost all = skills@;
    let mut rest = skills;
    let mut out: Vec<DocQuerySkill> = Vec::new();
    let ghost mut n: int = 0;
    assert(out@ =~= by_length(all.take(0)));
    assert(all.skip(0) =~= all);
    while rest.len() > 0
        invariant
            0 <= n <= all.len(),
            rest@ == all.skip(n),
            out@ == by_length(all.take(n)),
        decreases rest@.len(),
    {
        let x = rest.remove(0);
        assert(x == all[n]);
        assert(rest@ =~= all.skip(n + 1));
        let mut p: usize = out.len();
        let len: usize = bytes_of(x.trigger.as_str()).len();
        while p > 0 && len > bytes_of(out[p - 1].trigger.as_str()).len()
            invariant
                p <= out@.len(),
                len == trigger_len(x),
                forall|k: int|
                    p <= k < out@.len() ==> trigger_len(x) > trigger_len(#[trigger] out@[k]),
            decreases p,
        {
            p = p - 1;
        }
        proof {
            lemma_with_skill(out@, x, p as int);
            assert(all.take(n + 1).drop_last() =~= all.take(n));
            assert(all.take(n + 1).last() == x);
        }
        out.insert(p, x);
        proof {
            n = n + 1;
        }
    }
    assert(all.take(n) =~= all);
    out
}

/// No skill is asked behind one with a shorter trigger, and all skills stay.
pub proof fn longer_triggers_come_first(s: Seq<DocQuerySkill>)
    ensures
        forall|i: int, k: int|
            0 <= i < k < by_length(s).len() ==> trigger_len(#[trigger] by_length(s)[i])
                >= trigger_len(#[trigger] by_length(s)[k]),
        by_length(s).to_multiset() == s.to_multiset(),
    decreases s.len(),
{
    broadcast use vstd::seq_lib::group_to_multiset_ensures;

    if s.len() > 0 {
        longer_triggers_come_first(s.drop_last());
        lemma_with_skill_keeps(by_length(s.drop_last()), s.last());
        assert(s.drop_last().push(s.last()) =~= s);
    } else {
        assert(by_length(s) =~= s);
    }
}

proof fn lemma_with_skill_keeps(s: Seq<DocQuerySkill>, x: DocQuerySkill)
    requires
        forall|i: int, k: int|
            0 <= i < k < s.len() ==> trigger_len(#[trigger] s[i]) >= trigger_len(#[trigger] s[k]),
    ensures
        forall|i: int, k: int|
            0 <= i < k < with_skill(s, x).len() ==> trigger_len(#[trigger] with_skill(s, x)[i])
                >= trigger_len(#[trigger] with_skill(s, x)[k]),
        with_skill(s, x).to_multiset() == s.to_multiset().insert(x),
        with_skill(s, x).len() == s.len() + 1,
        s.len() > 0 ==> trigger_len(with_skill(s, x)[s.len() as int]) <= trigger_len(
            s[s.len() - 1],
        ) || with_skill(s, x)[s.len() as int] == x,
        forall|i: int|
            0 <= i <= s.len() ==> (#[trigger] with_skill(s, x)[i]) == x || s.contains(
                with_skill(s, x)[i],
            ),
    decreases s.len(),
{
    broadcast use vstd::seq_lib::group_to_multiset_ensures;

    let r = with_skill(s, x);
    if s.len() > 0 && trigger_len(x) > trigger_len(s.last()) {
        let init = s.drop_last();
        let inner = with_skill(init, x);
        lemma_with_skill_keeps(init, x);
        assert(init.push(s.last()) =~= s);
        assert forall|i: int, k: int| 0 <= i < k < r.len() implies trigger_len(#[trigger] r[i])
            >= trigger_len(#[trigger] r[k]) by {
            assert(r[i] == inner[i]);
            if k == s.len() {
                assert(r[k] == s.last());
                if inner[i] != x {
                    let m = choose|m: int| 0 <= m < init.len() && init[m] == inner[i];
                    assert(s[m] == inner[i]);
                    assert(trigger_len(s[m]) >= trigger_len(s[s.len() - 1]));
                }
            } else {
                assert(r[k] == inner[k]);
            }
        }
        assert forall|i: int| 0 <= i <= s.len() implies (#[trigger] r[i]) == x || s.contains(
            r[i],
        ) by {
            if i < inner.len() {
                assert(r[i] == inner[i]);
                if inner[i] != x {
                    let m = choose|m: int| 0 <= m < init.len() && init[m] == inner[i];
                    assert(s[m] == inner[i]);
                }
            } else {
                assert(s[s.len() - 1] == r[i]);
            }
        }
    } else {
        assert forall|i: int, k: int| 0 <= i < k < r.len() implies trigger_len(#[trigger] r[i])
            >= trigger_len(#[trigger] r[k]) by {
            assert(r[i] == s[i]);
            if k == s.len() {
                if i < s.len() - 1 {
                    assert(trigger_len(s[i]) >= trigger_len(s[s.len() - 1]));
                }
            } else {
                assert(r[k] == s[k]);
            }
        }
        assert forall|i: int| 0 <= i <= s.len() implies (#[trigger] r[i]) == x || s.contains(
            r[i],
        ) by {
            if i < s.len() {
                assert(r[i] == s[i]);
            }
        }
    }
}

// ---- what an answer keeps to ----

/// The hits at one place of the lists of two groups of sources are those of the one and
/// then those of the other; a source that has a hit at the place gives it under its name.
pub proof fn a_round_asks_every_source(
    a: Seq<(Text, Seq<DocHitV>)>,
    b: Seq<(Text, Seq<DocHitV>)>,
    name: Text,
    hits: Seq<DocHitV>,
    idx: int,
)
    ensures
        round(a + b, idx) == round(a, idx) + round(b, idx),
        0 <= idx < hits.len() ==> round(seq![(name, hits)], idx) == seq![(name, hits[idx])],
        !(0 <= idx < hits.len()) ==> round(seq![(name, hits)], idx).len() == 0,
    decreases b.len(),
{
    let none = Seq::<(Text, Seq<DocHitV>)>::empty();
    let one = seq![(name, hits)];
    assert(one.drop_last() =~= none);
    assert(one.last() == (name, hits));
    assert(round(none, idx) =~= Seq::<Sourced>::empty());
    if 0 <= idx < hits.len() {
        assert(round(one, idx) =~= seq![(name, hits[idx])]);
    }
    if b.len() == 0 {
        assert(a + b =~= a);
        assert(b =~= none);
        assert(round(a, idx) + round(b, idx) =~= round(a, idx));
    } else {
        a_round_asks_every_source(a, b.drop_last(), name, hits, idx);
        assert((a + b).drop_last() =~= a + b.drop_last());
        assert((a + b).last() == b.last());
        assert(round(a + b, idx) =~= round(a, idx) + round(b, idx));
    }
}

/// Whether a hit is one that a source gave, under the name of that source.
pub open spec fn was_given(per: Seq<(Text, Seq<DocHitV>)>, hit: Sourced) -> bool {
    exists|k: int| 0 <= k < per.len() && given_by(#[trigger] per[k], hit)
}

/// Whether a source gave a hit.
pub open spec fn given_by(source: (Text, Seq<DocHitV>), hit: Sourced) -> bool {
    source.0 == hit.0 && source.1.contains(hit.1)
}

/// A round holds the hits of one place.
proof fn lemma_round(per: Seq<(Text, Seq<DocHitV>)>, idx: int)
    ensures
        forall|i: int| 0 <= i < round(per, idx).len() ==> was_given(per, #[trigger] round(per, idx)[i]),
        forall|k: int|
            0 <= k < per.len() && 0 <= idx < (#[trigger] per[k]).1.len() ==> round(
                per,
                idx,
            ).contains((per[k].0, per[k].1[idx])),
    decreases per.len(),
{
    if per.len() > 0 {
        let init = per.drop_last();
        let before = round(init, idx);
        let all = round(per, idx);
        lemma_round(init, idx);
        assert forall|i: int| 0 <= i < all.len() implies was_given(per, #[trigger] all[i]) by {
            if i < before.len() {
                assert(all[i] == before[i]);
                assert(was_given(init, before[i]));
                let k = choose|k: int| 0 <= k < init.len() && given_by(#[trigger] init[k], before[i]);
                assert(given_by(per[k], all[i]));
            } else {
                let k = per.len() - 1;
                assert(per[k].1[idx] == all[i].1);
                assert(given_by(per[k], all[i]));
            }
        }
        assert forall|k: int|
            0 <= k < per.len() && 0 <= idx < (#[trigger] per[k]).1.len() implies all.contains(
            (per[k].0, per[k].1[idx]),
        ) by {
            if k < init.len() {
                assert(init[k] == per[k]);
                let x = (per[k].0, per[k].1[idx]);
                assert(before.contains(x));
                let i = choose|i: int| 0 <= i < before.len() && before[i] == x;
                assert(all[i] == x);
            } else {
                assert(all[before.len() as int] == (per[k].0, per[k].1[idx]));
            }
        }
    }
}

/// The rounds up to a number hold all hits of the places below it.
proof fn lemma_rounds(per: Seq<(Text, Seq<DocHitV>)>, n: nat)
    ensures
        forall|i: int| 0 <= i < rounds(per, n).len() ==> was_given(per, #[trigger] rounds(per, n)[i]),
        forall|k: int, i: int|
            0 <= k < per.len() && 0 <= i < (#[trigger] per[k]).1.len() && i < n ==> rounds(
                per,
                n,
            ).contains((per[k].0, #[trigger] per[k].1[i])),
    decreases n,
{
    if n > 0 {
        let m = (n - 1) as nat;
        let a = rounds(per, m);
        let b = round(per, n - 1);
        let all = rounds(per, n);
        lemma_rounds(per, m);
        lemma_round(per, n - 1);
        assert forall|i: int| 0 <= i < all.len() implies was_given(per, #[trigger] all[i]) by {
            if i < a.len() {
                assert(all[i] == a[i]);
            } else {
                assert(all[i] == b[i - a.len()]);
            }
        }
        assert forall|k: int, i: int|
            0 <= k < per.len() && 0 <= i < (#[trigger] per[k]).1.len() && i < n implies all.contains(
            (per[k].0, #[trigger] per[k].1[i]),
        ) by {
            let x = (per[k].0, per[k].1[i]);
            if i < m {
                assert(a.contains(x));
                let q = choose|q: int| 0 <= q < a.len() && a[q] == x;
                assert(all[q] == x);
            } else {
                assert(b.contains(x));
                let q = choose|q: int| 0 <= q < b.len() && b[q] == x;
                assert(all[a.len() + q] == x);
            }
        }
    }
}

/// No list is longer than the longest.
proof fn lemma_longest(per: Seq<(Text, Seq<DocHitV>)>, k: int)
    requires
        0 <= k < per.len(),
    ensures
        per[k].1.len() <= longest(per),
    decreases per.len(),
{
    if k < per.len() - 1 {
        lemma_longest(per.drop_last(), k);
        assert(per.drop_last()[k] == per[k]);
    }
}

/// What the sources gave is put together in turns: first the first hit of each source in
/// the order of the sources, then the second of each, and so on, up to the number asked
/// for. Each hit stands under the name of the source that gave it, and where there is
/// room none is left out.
pub proof fn sources_take_turns(per: Seq<(Text, Seq<DocHitV>)>, max: nat, n: nat)
    ensures
        forall|i: int|
            0 <= i < interleaved(per, max).len() ==> was_given(
                per,
                #[trigger] interleaved(per, max)[i],
            ),
        rounds(per, n + 1) == rounds(per, n) + round(per, n as int),
        interleaved(per, max).len() == if rounds(per, longest(per)).len() < max {
            rounds(per, longest(per)).len()
        } else {
            max
        },
        forall|i: int|
            0 <= i < interleaved(per, max).len() ==> #[trigger] interleaved(per, max)[i] == rounds(
                per,
                longest(per),
            )[i],
        interleaved(per, max).len() < max ==> forall|k: int, i: int|
            0 <= k < per.len() && 0 <= i < (#[trigger] per[k]).1.len() ==> interleaved(
                per,
                max,
            ).contains((per[k].0, #[trigger] per[k].1[i])),
{
    let l = longest(per);
    let all = rounds(per, l);
    lemma_rounds(per, l);
    let out = interleaved(per, max);
    assert forall|i: int| 0 <= i < out.len() implies was_given(per, #[trigger] out[i]) by {
        assert(out[i] == all[i]);
    }
    if out.len() < max {
        assert(out == all);
        assert forall|k: int, i: int|
            0 <= k < per.len() && 0 <= i < (#[trigger] per[k]).1.len() implies out.contains(
            (per[k].0, #[trigger] per[k].1[i]),
        ) by {
            lemma_longest(per, k);
        }
    }
}

/// What was found before stays in front, and of what is found later everything is added
/// that is at a new place, as long as there is room; nothing else is.
pub proof fn later_hits_are_added_behind(all: Seq<Sourced>, more: Seq<Sourced>, max: nat)
    ensures
        ({
            let r = absorbed(all, more, max);
            &&& r.len() >= all.len()
            &&& forall|i: int| 0 <= i < all.len() ==> #[trigger] r[i] == all[i]
            &&& forall|i: int|
                all.len() <= i < r.len() ==> more.contains(#[trigger] r[i])
            &&& r.len() < max ==> forall|k: int|
                0 <= k < more.len() ==> has_locator(r, (#[trigger] more[k]).1.locator)
        }),
    decreases more.len(),
{
    if more.len() > 0 {
        let init = more.drop_last();
        let before = absorbed(all, init, max);
        let r = absorbed(all, more, max);
        later_hits_are_added_behind(all, init, max);
        assert forall|i: int| all.len() <= i < r.len() implies more.contains(#[trigger] r[i]) by {
            if i < before.len() {
                assert(r[i] == before[i]);
                let k = choose|k: int| 0 <= k < init.len() && init[k] == before[i];
                assert(more[k] == r[i]);
            } else {
                assert(more[more.len() - 1] == r[i]);
            }
        }
        assert forall|i: int| 0 <= i < all.len() implies #[trigger] r[i] == all[i] by {
            assert(before[i] == all[i]);
        }
        if r.len() < max {
            assert forall|k: int| 0 <= k < more.len() implies has_locator(
                r,
                (#[trigger] more[k]).1.locator,
            ) by {
                if k < init.len() {
                    assert(init[k] == more[k]);
                    assert(has_locator(before, init[k].1.locator));
                    let i = choose|i: int|
                        0 <= i < before.len() && (#[trigger] before[i]).1.locator
                            == init[k].1.locator;
                    assert(r[i] == before[i]);
                } else if !has_locator(before, more[k].1.locator) {
                    assert(r[before.len() as int].1.locator == more[k].1.locator);
                } else {
                    let i = choose|i: int|
                        0 <= i < before.len() && (#[trigger] before[i]).1.locator
                            == more[k].1.locator;
                    assert(r[i] == before[i]);
                }
            }
        }
    }
}

/// A hit is cited by its title, its source and its place.
pub proof fn a_hit_is_cited_whole(hit: Sourced)
    ensures
        begins(cited(hit), hit.1.title),
        has(cited(hit), hit.0),
        has(cited(hit), hit.1.locator),
{
    let c = cited(hit);
    assert(c.subrange(0, hit.1.title.len() as int) =~= hit.1.title);
    assert(c =~= hit.1.title + "（"@ + hit.0 + (" · "@ + hit.1.locator + "）"@));
    a_part_occurs(hit.1.title + "（"@, hit.0, " · "@ + hit.1.locator + "）"@);
    a_part_occurs(hit.1.title + "（"@ + hit.0 + " · "@, hit.1.locator, "）"@);
}

/// The model is asked the question of the user and shown every hit: its number, its
/// citation and its text.
pub proof fn the_model_is_shown_every_hit(query: Text, hits: Seq<Sourced>, i: int)
    ensures
        begins(prompt_of(query, hits), "问题："@ + query),
        0 <= i < hits.len() ==> has(
            prompt_of(query, hits),
            "["@ + decimal((i + 1) as nat) + "] "@ + cited(hits[i]) + "\n"@ + hits[i].1.snippet,
        ),
    decreases hits.len(),
{
    let head = "问题："@ + query;
    let p = prompt_of(query, hits);
    if hits.len() == 0 {
        assert(p.subrange(0, head.len() as int) =~= head);
    } else {
        let init = hits.drop_last();
        let before = prompt_of(query, init);
        the_model_is_shown_every_hit(query, init, i);
        reveal_strlit("\n[");
        reveal_strlit("[");
        let nl = seq!['\n'];
        let u = "["@ + decimal(hits.len()) + "] "@ + cited(hits.last()) + "\n"@
            + hits.last().1.snippet;
        assert("\n["@ =~= nl + "["@);
        assert(p =~= before + nl + u + Seq::<char>::empty());
        assert(p =~= before + (nl + u));
        assert(p.subrange(0, head.len() as int) =~= before.subrange(0, head.len() as int));
        if i == hits.len() - 1 {
            a_part_occurs(before + nl, u, Seq::<char>::empty());
        } else if 0 <= i < hits.len() {
            assert(init[i] == hits[i]);
            joining_loses_nothing(
                before,
                nl + u,
                "["@ + decimal((i + 1) as nat) + "] "@ + cited(hits[i]) + "\n"@
                    + hits[i].1.snippet,
            );
        }
    }
}

/// An answer without a model begins with what called it and shows every hit: its number,
/// its citation and its text where it has one.
pub proof fn excerpts_show_every_hit(trigger: Text, hits: Seq<Sourced>, i: int)
    ensures
        begins(excerpts_of(trigger, hits), trigger),
        0 <= i < hits.len() ==> has(
            excerpts_of(trigger, hits),
            decimal((i + 1) as nat) + ". "@ + cited(hits[i]),
        ) && has(excerpts_of(trigger, hits), hits[i].1.snippet),
    decreases hits.len(),
{
    let p = excerpts_of(trigger, hits);
    if hits.len() == 0 {
        assert(p.subrange(0, trigger.len() as int) =~= trigger);
    } else {
        let init = hits.drop_last();
        let before = excerpts_of(trigger, init);
        excerpts_show_every_hit(trigger, init, i);
        let gap = if hits.len() > 1 {
            "\n\n"@
        } else {
            "\n"@
        };
        let u = decimal(hits.len()) + ". "@ + cited(hits.last());
        let rest = if hits.last().1.snippet.len() == 0 {
            Seq::<char>::empty()
        } else {
            "\n"@ + hits.last().1.snippet
        };
        assert(p =~= before + gap + u + rest);
        assert(p =~= before + (gap + u + rest));
        assert(p.subrange(0, trigger.len() as int) =~= before.subrange(0, trigger.len() as int));
        if i == hits.len() - 1 {
            a_part_occurs(before + gap, u, rest);
            let none = Seq::<char>::empty();
            if hits.last().1.snippet.len() == 0 {
                assert(hits.last().1.snippet =~= none);
                a_part_occurs(none, none, p);
                assert(none + none + p =~= p);
            } else {
                a_part_occurs(before + gap + u + "\n"@, hits.last().1.snippet, none);
                assert(p =~= before + gap + u + "\n"@ + hits.last().1.snippet + none);
            }
        } else if 0 <= i < hits.len() {
            assert(init[i] == hits[i]);
            joining_loses_nothing(
                before,
                gap + u + rest,
                decimal((i + 1) as nat) + ". "@ + cited(hits[i]),
            );
            joining_loses_nothing(before, gap + u + rest, hits[i].1.snippet);
        }
    }
}

/// The answer of the model is said as it is where it says anything and is not too long;
/// where it says nothing, the excerpts are shown; where nothing was found, that is said
/// of the very question.
pub proof fn the_answer_is_what_was_found(
    skill: SkillV,
    query: Text,
    hits: Seq<Sourced>,
    answer: Text,
)
    ensures
        hits.len() > 0 && trimmed(answer).len() > 0 && answer.len() <= skill.max_answer_chars
            ==> final_text(skill, query, hits, Some(Ok(answer))) == answer,
        hits.len() > 0 && trimmed(answer).len() > 0 ==> begins(
            final_text(skill, query, hits, Some(Ok(answer))),
            prefix(answer, skill.max_answer_chars),
        ),
        hits.len() > 0 && trimmed(answer).len() == 0 ==> final_text(
            skill,
            query,
            hits,
            Some(Ok(answer)),
        ) == final_text(skill, query, hits, None),
        hits.len() > 0 && excerpts_of(skill.trigger, hits).len() <= skill.max_answer_chars
            ==> final_text(skill, query, hits, None) == excerpts_of(skill.trigger, hits),
        hits.len() == 0 ==> has(final_text(skill, query, hits, Some(Ok(answer))), query) && begins(
            final_text(skill, query, hits, None),
            skill.trigger,
        ) && has(final_text(skill, query, hits, None), query),
{
    let max = skill.max_answer_chars;
    let p = prefix(answer, max);
    assert(p.subrange(0, p.len() as int) =~= p);
    assert((p + "…（已截断）"@).subrange(0, p.len() as int) =~= p);
    let t = not_found_text(skill.trigger, query);
    assert(t.subrange(0, skill.trigger.len() as int) =~= skill.trigger);
    a_part_occurs(skill.trigger + " 没查到与「"@, query, "」相关的内容"@);
}

/// The question itself is always asked first; what the model made of it is asked too
/// where it is another one.
pub proof fn the_question_is_asked_first(query: Text, answer: Result<Text, LlmErrorV>)
    ensures
        queries_of(query, answer).len() >= 1,
        queries_of(query, answer)[0] == query,
        queries_of(query, answer).len() <= 2,
        (answer matches Ok(t) ==> (ascii_lower(trimmed(t)) != ascii_lower(query) && trimmed(t).len()
            > 0 ==> queries_of(query, answer) == seq![query, trimmed(t)])),
        answer is Err ==> queries_of(query, answer).len() == 1,
        (answer matches Ok(t) ==> (trimmed(t).len() == 0 || ascii_lower(trimmed(t)) == ascii_lower(
            query,
        ) ==> queries_of(query, answer).len() == 1)),
{
}

/// The sources of a skill are all that can be used, in their order: a directory that is
/// there, a site with an address, a repository with a name.
pub proof fn every_usable_source_is_used(
    a: Seq<SourceConfigV>,
    b: Seq<SourceConfigV>,
    source: SourceConfigV,
    roots: Seq<Text>,
    cache_root: Text,
)
    ensures
        usable_sources(a + b, roots, cache_root) == usable_sources(a, roots, cache_root)
            + usable_sources(b, roots, cache_root),
        match source {
            SourceConfigV::Local { root, extensions, name } => if roots.contains(root) {
                usable_sources(seq![source], roots, cache_root) == seq![
                    DocSourceV::Local {
                        name,
                        root,
                        extensions: crate::agent::local::endings(extensions),
                    },
                ]
            } else {
                usable_sources(seq![source], roots, cache_root).len() == 0
            },
            SourceConfigV::Mediawiki { api_url, name } => if api_url.len() > 0 {
                usable_sources(seq![source], roots, cache_root) == seq![
                    DocSourceV::Wiki {
                        name,
                        api_url,
                        base_url: crate::agent::http::site_of(api_url),
                    },
                ]
            } else {
                usable_sources(seq![source], roots, cache_root).len() == 0
            },
            SourceConfigV::Repo { repo, .. } => usable_sources(seq![source], roots, cache_root).len()
                == if repo.len() > 0 {
                1nat
            } else {
                0
            },
        },
    decreases b.len(),
{
    let none = Seq::<SourceConfigV>::empty();
    let one = seq![source];
    assert(one.drop_last() =~= none);
    assert(one.last() == source);
    assert(usable_sources(none, roots, cache_root) =~= Seq::<DocSourceV>::empty());
    if usable(source, roots) {
        assert(usable_sources(one, roots, cache_root) =~= seq![source_of(source, cache_root)]);
    }
    if b.len() == 0 {
        assert(a + b =~= a);
        assert(b =~= none);
        assert(usable_sources(a, roots, cache_root) + usable_sources(b, roots, cache_root)
            =~= usable_sources(a, roots, cache_root));
    } else {
        every_usable_source_is_used(a, b.drop_last(), source, roots, cache_root);
        assert((a + b).drop_last() =~= a + b.drop_last());
        assert((a + b).last() == b.last());
        assert(usable_sources(a + b, roots, cache_root) =~= usable_sources(a, roots, cache_root)
            + usable_sources(b, roots, cache_root));
    }
}

/// Every skill with a source that can be used is there, under its name and called by its
/// trigger, or else by its name behind an exclamation mark; no other is.
pub proof fn every_skill_with_a_source_is_there(
    cfg: AgentV,
    roots: Seq<Text>,
    cache_root: Text,
    n: nat,
    i: int,
)
    requires
        0 <= i < n <= cfg.skills.len(),
    ensures
        ({
            let s = skill_of(cfg.skills[i], cfg, roots, cache_root);
            &&& s.name == cfg.skills[i].name
            &&& cfg.skills[i].trigger.len() > 0 ==> s.trigger == cfg.skills[i].trigger
            &&& cfg.skills[i].trigger.len() == 0 ==> s.trigger == "!"@ + s.name
            &&& s.description == cfg.skills[i].description
            &&& s.max_results == cfg.skills[i].max_results
            &&& s.sources == usable_sources(cfg.skills[i].sources, roots, cache_root)
            &&& s.sources.len() > 0 ==> skills_of(cfg, roots, cache_root, n).contains(s)
            &&& (s.llm matches Some(m) ==> cfg.llm == Some(m) && m.api_url.len() > 0)
            &&& (cfg.llm matches Some(m) ==> m.api_url.len() > 0 ==> s.llm == Some(m))
        }),
        forall|k: int|
            0 <= k < skills_of(cfg, roots, cache_root, n).len() ==> (#[trigger] skills_of(
                cfg,
                roots,
                cache_root,
                n,
            )[k]).sources.len() > 0,
    decreases n,
{
    let m = (n - 1) as nat;
    let before = skills_of(cfg, roots, cache_root, m);
    let all = skills_of(cfg, roots, cache_root, n);
    let s = skill_of(cfg.skills[i], cfg, roots, cache_root);
    if m > 0 {
        let j = if i < m {
            i
        } else {
            0
        };
        every_skill_with_a_source_is_there(cfg, roots, cache_root, m, j);
    }
    if s.sources.len() > 0 {
        if i < m {
            let k = choose|k: int| 0 <= k < before.len() && before[k] == s;
            assert(all[k] == s);
        } else {
            assert(all[before.len() as int] == s);
        }
    }
    assert forall|k: int| 0 <= k < all.len() implies (#[trigger] all[k]).sources.len() > 0 by {
        if k < before.len() {
            assert(all[k] == before[k]);
        }
    }
}

/// A skill answers to its trigger, alone or with a question behind it, from wherever it
/// comes, and tells of itself by its name, its trigger and what it does.
pub proof fn a_skill_answers_to_its_trigger(
    skill: DocQuerySkill,
    msg: InboundV,
    gap: char,
    query: Text,
)
    requires
        skill.trigger@.len() > 0,
        !crate::text::is_white(skill.trigger@[0]),
        !crate::text::is_white(skill.trigger@.last()),
        crate::text::is_white(gap),
    ensures
        msg.text == skill.trigger@ + seq![gap] + query ==> skill.claims(msg),
        msg.text == skill.trigger@ ==> skill.claims(msg),
        !begins(ascii_lower(trimmed(msg.text)), ascii_lower(skill.trigger@)) ==> !skill.claims(msg),
        skill.about().name == skill.name@,
        skill.about().trigger == skill.trigger@,
        skill.about().description == skill.description@,
{
    crate::router::what_follows_the_trigger_is_asked(skill.trigger@, gap, query);
    if !begins(ascii_lower(trimmed(msg.text)), ascii_lower(skill.trigger@)) {
        crate::router::other_texts_ask_nothing(msg.text, skill.trigger@);
    }
}

/// The model is shown what was found, for the question that was asked, as soon as nothing
/// more is asked of the sources; without a model the excerpts are said.
pub proof fn the_model_is_asked_when_all_is_found(skill: SkillV, run: SkillRunV)
    requires
        !run.goes_on(skill.max_results),
    ensures
        (skill.llm matches Some(cfg) ==> run.found.len() > 0 ==> (next_step(
            skill,
            run,
        ) matches RunStepV::Model(r) && r == request_of(
            cfg,
            system_of(cfg),
            prompt_of(run.query, run.found),
        ))),
        skill.llm is None ==> next_step(skill, run) == RunStepV::Say(
            final_text(skill, run.query, run.found, None),
        ),
        run.found.len() == 0 ==> next_step(skill, run) == RunStepV::Say(
            final_text(skill, run.query, run.found, None),
        ),
        (skill.llm matches Some(cfg) ==> (cfg.system_prompt.len() > 0 ==> system_of(cfg)
            == cfg.system_prompt)),
{
}

/// A question behind the trigger is searched for as it was asked; one in ideographs is
/// put into English first where there is a model, and is that very question. Without a
/// question the use of the trigger is told, and a text for others is passed over.
pub proof fn a_question_is_searched_as_asked(
    trigger: Text,
    llm: Option<LlmV>,
    gap: char,
    query: Text,
)
    requires
        trigger.len() > 0,
        !crate::text::is_white(trigger[0]),
        !crate::text::is_white(trigger.last()),
        crate::text::is_white(gap),
        query.len() > 0,
        !crate::text::is_white(query[0]),
        !crate::text::is_white(query.last()),
    ensures
        llm is None || !has_ideograph(query) ==> first_step(
            trigger,
            llm,
            trigger + seq![gap] + query,
        ) == (SkillStepV::Search { query }),
        (llm matches Some(cfg) ==> has_ideograph(query) ==> (first_step(
            trigger,
            llm,
            trigger + seq![gap] + query,
        ) matches SkillStepV::Translate { query: asked, request } && asked == query
            && request.url == cfg.api_url)),
        (first_step(trigger, llm, trigger) matches SkillStepV::Say(t) && has(t, trigger)),
        first_step(trigger, llm, query) is Pass || begins(
            ascii_lower(query),
            ascii_lower(trigger),
        ),
{
    crate::router::what_follows_the_trigger_is_asked(trigger, gap, query);
    crate::text::what_is_trimmed_stays(query);
    a_part_occurs("用法："@, trigger, " <查询词>"@);
    if !begins(ascii_lower(query), ascii_lower(trigger)) {
        crate::router::other_texts_ask_nothing(query, trigger);
    }
}

/// Each asking of the sources counts once, keeps the question and what was found before,
/// and adds what is found now.
pub proof fn asking_adds_what_is_found(
    run: SkillRunV,
    per: Seq<(Text, Seq<DocHitV>)>,
    max: nat,
)
    requires
        run.found.len() <= max,
    ensures
        ({
            let after = run_after(run, per, max);
            &&& after.asked == run.asked + 1
            &&& after.query == run.query
            &&& after.queries == run.queries
            &&& after.found.len() >= run.found.len()
            &&& after.found.len() <= max
            &&& forall|i: int| 0 <= i < run.found.len() ==> #[trigger] after.found[i] == run.found[i]
            &&& forall|i: int|
                run.found.len() <= i < after.found.len() ==> was_given(
                    per,
                    #[trigger] after.found[i],
                )
        }),
{
    let more = interleaved(per, max);
    later_hits_are_added_behind(run.found, more, max);
    merging_keeps_to_the_limit(per, run.found, more, max);
    sources_take_turns(per, max, 0);
    let r = run_after(run, per, max).found;
    assert forall|i: int| run.found.len() <= i < r.len() implies was_given(
        per,
        #[trigger] r[i],
    ) by {
        assert(more.contains(r[i]));
        let k = choose|k: int| 0 <= k < more.len() && more[k] == r[i];
        assert(was_given(per, more[k]));
    }
}

/// An answer that is too long says that it was cut, and one that is not does not change.
pub proof fn a_cut_answer_says_so(text: Text, max: nat)
    ensures
        text.len() > max ==> ends(truncated(text, max), "…（已截断）"@) && truncated(
            text,
            max,
        ).len() == max + "…（已截断）"@.len(),
        text.len() <= max ==> truncated(text, max) == text,
{
    let t = truncated(text, max);
    let e = "…（已截断）"@;
    if text.len() > max {
        assert(t.subrange(t.len() - e.len(), t.len() as int) =~= e);
    }
}

/// Skills whose triggers are as long as each other keep their order.
pub proof fn equal_triggers_keep_their_order(s: Seq<DocQuerySkill>)
    requires
        forall|i: int, k: int|
            0 <= i < s.len() && 0 <= k < s.len() ==> trigger_len(#[trigger] s[i]) == trigger_len(
                #[trigger] s[k],
            ),
    ensures
        by_length(s) == s,
    decreases s.len(),
{
    if s.len() > 0 {
        let init = s.drop_last();
        assert forall|i: int, k: int|
            0 <= i < init.len() && 0 <= k < init.len() implies trigger_len(#[trigger] init[i])
            == trigger_len(#[trigger] init[k]) by {
            assert(init[i] == s[i] && init[k] == s[k]);
        }
        equal_triggers_keep_their_order(init);
        if init.len() > 0 {
            assert(init.last() == s[init.len() - 1]);
            assert(s.last() == s[s.len() - 1]);
            assert(trigger_len(s[s.len() - 1]) == trigger_len(s[init.len() - 1]));
        }
        assert(init.push(s.last()) =~= s);
    } else {
        assert(by_length(s) =~= s);
    }
}

/// A repository is searched under the name, the branch and the directory that are
/// configured, and in a cache of its own under the directory for caches.
pub proof fn a_repository_is_searched_as_configured(
    repo: Text,
    branch: Text,
    subdir: Text,
    site_url: Text,
    extensions: Seq<Text>,
    name: Text,
    cache_root: Text,
)
    ensures
        source_of(
            SourceConfigV::Repo { repo, branch, subdir, site_url, extensions, name },
            cache_root,
        ) matches DocSourceV::Repo {
            name: n,
            repo: r,
            branch: b,
            subdir: d,
            site_url: u,
            extensions: e,
            cache_dir: c,
        } && {
            &&& n == name
            &&& r == repo
            &&& b == branch
            &&& subdir.len() > 0 ==> d == Some(subdir)
            &&& subdir.len() == 0 ==> d is None
            &&& site_url.len() > 0 ==> u == Some(site_url)
            &&& site_url.len() == 0 ==> u is None
            &&& e == extensions
            &&& ends(c, slug_of(repo))
        },
{
    let p = path_joined(cache_root, slug_of(repo));
    let s = slug_of(repo);
    crate::agent::repo::a_path_stands_under_its_directory(cache_root, s);
}

/// The sources are asked no further once as many hits as wanted are found, and only then
/// or when every query was asked.
pub proof fn no_more_is_asked_than_needed(skill: SkillV, run: SkillRunV)
    ensures
        run.found.len() > 0 && run.found.len() >= skill.max_results ==> !(next_step(skill, run)
            is Ask),
        run.asked >= run.queries.len() ==> !(next_step(skill, run) is Ask),
        run.asked < run.queries.len() && run.found.len() < skill.max_results ==> next_step(
            skill,
            run,
        ) == RunStepV::Ask(run.queries[run.asked as int]),
        run.asked < run.queries.len() && run.found.len() == 0 ==> next_step(skill, run)
            == RunStepV::Ask(run.queries[run.asked as int]),
{
}

} // verus!
