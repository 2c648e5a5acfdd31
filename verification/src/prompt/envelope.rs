//! The workflow envelope wrapped around a user's request, and the recovery of
//! the human request from a stored turn body.
use vstd::prelude::*;
use crate::prompt::skills::{format_skill_mention, skill_mention, SkillMentionStyle};
use crate::text::{
    byte_fit_len, byte_len, chars_of, ends_with, lemma_fit_count, contains, contains_str,
    eq, eq_str, fit_count, find, has_prefix_str, lemma_find_from_sound, lemma_lead_bounds,
    lemma_lower_subrange, lemma_no_match_in_slice, lemma_rfind_upto_complete,
    lemma_rfind_upto_sound, lemma_trail_bounds, lemma_trail_concat, lemma_trail_positive,
    lemma_trim_fixed, lemma_trim_of_trim_end, lit, lower, lower_char, match_at, push_all, rfind,
    rfind_str, slice_of, starts_with, string_of, to_lower, trail, trim, trim_end, trim_exec,
    find_str, lead,
};

verus! {

/// Marker the host always inserts before the real user text in `build_prompt`.
pub const USER_REQUEST_MARKER: &'static str = "User request:\n";

pub const SYSTEM_SUMMARY: &'static str = "You are helping with a research vault. Summarize the target paper (follow vault AGENTS.md for reading order and citations).";
pub const SYSTEM_READER_HEAD: &'static str = "You are running the Agentero paper-reader workflow. ";
pub const SYSTEM_READER_TAIL: &'static str = " Target is a paper folder under papers/; write lecture notes to that paper's NOTES.md.";
pub const SYSTEM_QA: &'static str = "You are answering questions about a local research vault (follow vault AGENTS.md; read only what you need).";
pub const SYSTEM_RELATED: &'static str = "Draft a Related Work section from local papers in this Vault (prefer each paper's NOTES.md; follow vault AGENTS.md).";
pub const SYSTEM_FREE: &'static str = "You are an assistant working inside a Agentero research Vault (cwd is the vault root). Follow vault AGENTS.md.";

pub const SKILL_ACTIVATE_HEAD: &'static str = "Activate the skill with `";
pub const SKILL_DOLLAR_TAIL: &'static str = "` (this agent uses the **$skill-id** syntax). Follow that skill strictly; Agentero also injects the full SKILL.md below if the runtime does not resolve it natively.";
pub const SKILL_SLASH_TAIL: &'static str = "` (this agent uses the **/skill-id** syntax). Follow that skill strictly; Agentero also injects the full SKILL.md below if the runtime does not resolve it natively.";
pub const SKILL_INJECTED_HEAD: &'static str = "Follow the **paper-reader** skill instructions Agentero injects in this prompt (label `";
pub const SKILL_INJECTED_TAIL: &'static str = "`). This agent does not use Agentero Composer `$` as a runtime skill trigger — do not wait for a separate $ or / command.";

pub const TARGET_HEAD: &'static str = "Target path (Vault-relative): `";
pub const TARGET_TAIL: &'static str = "`\n";
pub const LANGUAGE_HEAD: &'static str = " Always write your entire response, including any notes saved to files, in ";
pub const LANGUAGE_TAIL: &'static str = ", regardless of the language of the source material or this prompt.";
pub const LANGUAGE_ZH: &'static str = "Simplified Chinese (简体中文)";
pub const LANGUAGE_EN: &'static str = "English";
pub const PERSONAL_HEAD: &'static str = "\n\nUser preference instructions (always honor when relevant):\n";
pub const PARAGRAPH: &'static str = "\n\n";

/// Longest personal preference text kept, in bytes.
pub const PERSONAL_PROMPT_MAX_BYTES: usize = 8000;

pub const ENV_OPEN: &'static str = "<environment_context";
pub const ENV_CLOSE: &'static str = "</environment_context>";

// ---------------------------------------------------------------------------
// Building the envelope
// ---------------------------------------------------------------------------

/// The characters of an optional borrowed string.
pub open spec fn opt_chars(o: Option<&str>) -> Option<Seq<char>> {
    match o {
        Some(s) => Some(s@),
        None => None,
    }
}

/// The workflow name, `free` when none is given.
pub open spec fn workflow_name(w: Option<Seq<char>>) -> Seq<char> {
    match w {
        Some(x) => x,
        None => "free"@,
    }
}

/// The skill the paper-reader line names: the first selected one, else `paper-reader`.
pub open spec fn first_skill(ids: Seq<String>) -> Seq<char> {
    if ids.len() > 0 {
        ids[0]@
    } else {
        "paper-reader"@
    }
}

/// The line telling the agent how to activate the paper-reader skill.
pub open spec fn skill_line(style: SkillMentionStyle, id: Seq<char>) -> Seq<char> {
    let mention = skill_mention(id, style);
    match style {
        SkillMentionStyle::Dollar => SKILL_ACTIVATE_HEAD@ + mention + SKILL_DOLLAR_TAIL@,
        SkillMentionStyle::Slash => SKILL_ACTIVATE_HEAD@ + mention + SKILL_SLASH_TAIL@,
        SkillMentionStyle::InjectedOnly => SKILL_INJECTED_HEAD@ + mention + SKILL_INJECTED_TAIL@,
    }
}

/// The role sentence for a workflow.
pub open spec fn system_text(workflow: Seq<char>, style: SkillMentionStyle, id: Seq<char>) -> Seq<
    char,
> {
    if workflow == "summary"@ {
        SYSTEM_SUMMARY@
    } else if workflow == "paper_reader"@ {
        SYSTEM_READER_HEAD@ + skill_line(style, id) + SYSTEM_READER_TAIL@
    } else if workflow == "qa"@ {
        SYSTEM_QA@
    } else if workflow == "related_work"@ {
        SYSTEM_RELATED@
    } else {
        SYSTEM_FREE@
    }
}

/// The line naming the target path, or nothing.
pub open spec fn target_line(target: Option<Seq<char>>) -> Seq<char> {
    match target {
        Some(t) => TARGET_HEAD@ + t + TARGET_TAIL@,
        None => Seq::empty(),
    }
}

/// The sentence forcing the response language; empty for unknown codes.
pub open spec fn language_text(code: Option<Seq<char>>) -> Seq<char> {
    match code {
        Some(c) => if c == "zh-CN"@ {
            LANGUAGE_HEAD@ + LANGUAGE_ZH@ + LANGUAGE_TAIL@
        } else if c == "en"@ {
            LANGUAGE_HEAD@ + LANGUAGE_EN@ + LANGUAGE_TAIL@
        } else {
            Seq::empty()
        },
        None => Seq::empty(),
    }
}

/// A trimmed personal text cut to at most 8000 bytes, at the last
/// character boundary that fits.
pub open spec fn capped_personal(t: Seq<char>) -> Seq<char> {
    t.take(fit_count(t, PERSONAL_PROMPT_MAX_BYTES as int) as int)
}

/// The personal preference block; empty when the text is empty or blank.
pub open spec fn personal_text(personal: Option<Seq<char>>) -> Seq<char> {
    match personal {
        Some(p) => if trim(p).len() == 0 {
            Seq::empty()
        } else {
            PERSONAL_HEAD@ + capped_personal(trim(p))
        },
        None => Seq::empty(),
    }
}

/// Everything of the prompt before the marker.
pub open spec fn head_before_marker(
    workflow: Seq<char>,
    target: Option<Seq<char>>,
    style: SkillMentionStyle,
    skill: Seq<char>,
    lang: Option<Seq<char>>,
    personal: Option<Seq<char>>,
) -> Seq<char> {
    if workflow == "translate"@ {
        target_line(target)
    } else {
        system_text(workflow, style, skill) + language_text(lang) + personal_text(personal)
            + PARAGRAPH@ + target_line(target)
    }
}

/// Everything of the prompt before the user's text: it ends with the marker.
pub open spec fn prompt_head(
    workflow: Seq<char>,
    target: Option<Seq<char>>,
    style: SkillMentionStyle,
    skill: Seq<char>,
    lang: Option<Seq<char>>,
    personal: Option<Seq<char>>,
) -> Seq<char> {
    head_before_marker(workflow, target, style, skill, lang, personal) + USER_REQUEST_MARKER@
}

/// The prompt built for a turn.
pub open spec fn prompt_text(
    workflow: Seq<char>,
    user: Seq<char>,
    target: Option<Seq<char>>,
    style: SkillMentionStyle,
    skill: Seq<char>,
    lang: Option<Seq<char>>,
    personal: Option<Seq<char>>,
) -> Seq<char> {
    prompt_head(workflow, target, style, skill, lang, personal) + user
}

fn append(out: &mut Vec<char>, s: &str)
    ensures
        final(out)@ == old(out)@ + s@,
{
    let v = lit(s);
    push_all(out, v.as_slice());
}

fn opt_eq(o: Option<&str>, t: &str) -> (r: bool)
    ensures
        r == (opt_chars(o) == Some(t@)),
{
    match o {
        Some(s) => {
            let v = chars_of(s);
            eq_str(v.as_slice(), t)
        },
        None => false,
    }
}

/// A trailing instruction forcing the response language (`zh-CN`, `en`);
/// empty for other or missing codes.
pub fn language_directive(code: Option<&str>) -> (r: String)
    ensures
        r@ == language_text(opt_chars(code)),
{
    let name = if opt_eq(code, "zh-CN") {
        LANGUAGE_ZH
    } else if opt_eq(code, "en") {
        LANGUAGE_EN
    } else {
        return String::new();
    };
    let mut out: Vec<char> = Vec::new();
    append(&mut out, LANGUAGE_HEAD);
    append(&mut out, name);
    append(&mut out, LANGUAGE_TAIL);
    assert(out@ =~= language_text(opt_chars(code)));
    string_of(out.as_slice())
}

/// The optional user preference block; blank text adds nothing, and the text
/// is cut to at most 8000 bytes, at a character boundary.
pub fn personal_preference_directive(personal: Option<&str>) -> (r: String)
    ensures
        r@ == personal_text(opt_chars(personal)),
{
    let p = match personal {
        Some(p) => p,
        None => {
            return String::new();
        },
    };
    let pc = chars_of(p);
    let t = trim_exec(pc.as_slice());
    if t.len() == 0 {
        return String::new();
    }
    let k = byte_fit_len(t.as_slice(), PERSONAL_PROMPT_MAX_BYTES);
    let kept = slice_of(t.as_slice(), 0, k);
    assert(kept@ =~= t@.take(k as int));
    let mut out = lit(PERSONAL_HEAD);
    push_all(&mut out, kept.as_slice());
    string_of(out.as_slice())
}

/// How the paper-reader workflow tells the agent to activate its skill.
pub fn paper_reader_skill_line(style: SkillMentionStyle, skill_ids: &[String]) -> (r: String)
    ensures
        r@ == skill_line(style, first_skill(skill_ids@)),
{
    let id: &str = if skill_ids.len() > 0 {
        skill_ids[0].as_str()
    } else {
        "paper-reader"
    };
    let mention = format_skill_mention(id, style);
    let mc = chars_of(mention.as_str());
    let mut out: Vec<char> = Vec::new();
    match style {
        SkillMentionStyle::Dollar => {
            append(&mut out, SKILL_ACTIVATE_HEAD);
            push_all(&mut out, mc.as_slice());
            append(&mut out, SKILL_DOLLAR_TAIL);
        },
        SkillMentionStyle::Slash => {
            append(&mut out, SKILL_ACTIVATE_HEAD);
            push_all(&mut out, mc.as_slice());
            append(&mut out, SKILL_SLASH_TAIL);
        },
        SkillMentionStyle::InjectedOnly => {
            append(&mut out, SKILL_INJECTED_HEAD);
            push_all(&mut out, mc.as_slice());
            append(&mut out, SKILL_INJECTED_TAIL);
        },
    }
    string_of(out.as_slice())
}

fn target_line_exec(target: Option<&str>) -> (r: Vec<char>)
    ensures
        r@ == target_line(opt_chars(target)),
{
    match target {
        Some(t) => {
            let mut out = lit(TARGET_HEAD);
            append(&mut out, t);
            append(&mut out, TARGET_TAIL);
            out
        },
        None => Vec::new(),
    }
}

fn system_exec(workflow: &[char], style: SkillMentionStyle, skill_ids: &[String]) -> (r: Vec<char>)
    ensures
        r@ == system_text(workflow@, style, first_skill(skill_ids@)),
{
    if eq_str(workflow, "summary") {
        lit(SYSTEM_SUMMARY)
    } else if eq_str(workflow, "paper_reader") {
        let line = paper_reader_skill_line(style, skill_ids);
        let mut out = lit(SYSTEM_READER_HEAD);
        append(&mut out, line.as_str());
        append(&mut out, SYSTEM_READER_TAIL);
        out
    } else if eq_str(workflow, "qa") {
        lit(SYSTEM_QA)
    } else if eq_str(workflow, "related_work") {
        lit(SYSTEM_RELATED)
    } else {
        lit(SYSTEM_FREE)
    }
}

/// Build a workflow-oriented prompt: the role sentence for the workflow, the
/// response-language and personal-preference directives, the target line,
/// then the marker and the user's request. The `translate` workflow gets only
/// the target line, the marker and the request.
pub fn build_prompt(
    workflow: Option<&str>,
    user_prompt: &str,
    target: Option<&str>,
    skill_style: SkillMentionStyle,
    skill_ids: &[String],
    response_language: Option<&str>,
    personal_prompt: Option<&str>,
) -> (r: String)
    ensures
        r@ == prompt_text(
            workflow_name(opt_chars(workflow)),
            user_prompt@,
            opt_chars(target),
            skill_style,
            first_skill(skill_ids@),
            opt_chars(response_language),
            opt_chars(personal_prompt),
        ),
{
    let w: Vec<char> = match workflow {
        Some(w) => chars_of(w),
        None => lit("free"),
    };
    let tl = target_line_exec(target);
    let mut out: Vec<char> = Vec::new();
    if eq_str(w.as_slice(), "translate") {
        push_all(&mut out, tl.as_slice());
    } else {
        let system = system_exec(w.as_slice(), skill_style, skill_ids);
        let language = language_directive(response_language);
        let personal = personal_preference_directive(personal_prompt);
        push_all(&mut out, system.as_slice());
        append(&mut out, language.as_str());
        append(&mut out, personal.as_str());
        append(&mut out, PARAGRAPH);
        push_all(&mut out, tl.as_slice());
    }
    append(&mut out, USER_REQUEST_MARKER);
    append(&mut out, user_prompt);
    string_of(out.as_slice())
}

// ---------------------------------------------------------------------------
// Laws of the envelope
// ---------------------------------------------------------------------------

/// What a non-translate prompt says before its blank line: the role
/// sentence, the language directive and the preference block.
pub open spec fn preamble(
    workflow: Seq<char>,
    style: SkillMentionStyle,
    skill: Seq<char>,
    lang: Option<Seq<char>>,
    personal: Option<Seq<char>>,
) -> Seq<char> {
    system_text(workflow, style, skill) + language_text(lang) + personal_text(personal)
}

/// Law: every prompt ends with the target line, the request marker and the
/// user's text exactly as given. A translate prompt is exactly that; any
/// other workflow puts a non-empty preamble and a blank line before it.
pub proof fn lemma_prompt_request_suffix(
    workflow: Seq<char>,
    user: Seq<char>,
    target: Option<Seq<char>>,
    style: SkillMentionStyle,
    skill: Seq<char>,
    lang: Option<Seq<char>>,
    personal: Option<Seq<char>>,
)
    ensures
        ends_with(
            prompt_text(workflow, user, target, style, skill, lang, personal),
            target_line(target) + USER_REQUEST_MARKER@ + user,
        ),
        workflow == "translate"@ ==> prompt_text(workflow, user, target, style, skill, lang, personal)
            == target_line(target) + USER_REQUEST_MARKER@ + user,
        workflow != "translate"@ ==> prompt_text(workflow, user, target, style, skill, lang, personal)
            == preamble(workflow, style, skill, lang, personal) + PARAGRAPH@ + target_line(target)
            + USER_REQUEST_MARKER@ + user,
        workflow != "translate"@ ==> preamble(workflow, style, skill, lang, personal).len() > 0,
{
    reveal_strlit("You are helping with a research vault. Summarize the target paper (follow vault AGENTS.md for reading order and citations).");
    reveal_strlit("You are running the Agentero paper-reader workflow. ");
    reveal_strlit("You are answering questions about a local research vault (follow vault AGENTS.md; read only what you need).");
    reveal_strlit("Draft a Related Work section from local papers in this Vault (prefer each paper's NOTES.md; follow vault AGENTS.md).");
    reveal_strlit("You are an assistant working inside a Agentero research Vault (cwd is the vault root). Follow vault AGENTS.md.");
    let p = prompt_text(workflow, user, target, style, skill, lang, personal);
    let tail = target_line(target) + USER_REQUEST_MARKER@ + user;
    if workflow == "translate"@ {
        assert(p =~= tail);
        assert(p.skip(0) =~= tail);
    } else {
        let pre = preamble(workflow, style, skill, lang, personal) + PARAGRAPH@;
        assert(p =~= pre + tail);
        assert(p.skip(p.len() - tail.len()) =~= tail);
        let sys = system_text(workflow, style, skill);
        assert(sys.len() > 0);
    }
}

/// Law: outside the paper-reader workflow the prompt does not depend on the
/// skill mention style or on which skills are selected.
pub proof fn lemma_prompt_ignores_skills_outside_reader(
    workflow: Seq<char>,
    user: Seq<char>,
    target: Option<Seq<char>>,
    style1: SkillMentionStyle,
    skill1: Seq<char>,
    style2: SkillMentionStyle,
    skill2: Seq<char>,
    lang: Option<Seq<char>>,
    personal: Option<Seq<char>>,
)
    requires
        workflow != "paper_reader"@,
    ensures
        prompt_text(workflow, user, target, style1, skill1, lang, personal) == prompt_text(
            workflow,
            user,
            target,
            style2,
            skill2,
            lang,
            personal,
        ),
{
    assert(system_text(workflow, style1, skill1) == system_text(workflow, style2, skill2));
}

/// Law: the response-language sentence is there exactly for `zh-CN` and
/// `en`, naming Simplified Chinese or English; any other code, or none,
/// adds nothing.
pub proof fn lemma_language_directive(lang: Option<Seq<char>>)
    ensures
        language_text(lang).len() > 0 <==> (lang == Some("zh-CN"@) || lang == Some("en"@)),
        lang == Some("zh-CN"@) ==> language_text(lang) == LANGUAGE_HEAD@ + LANGUAGE_ZH@
            + LANGUAGE_TAIL@,
        lang == Some("en"@) ==> language_text(lang) == LANGUAGE_HEAD@ + LANGUAGE_EN@
            + LANGUAGE_TAIL@,
{
    reveal_strlit(" Always write your entire response, including any notes saved to files, in ");
    reveal_strlit("zh-CN");
    reveal_strlit("en");
    assert("en"@.len() != "zh-CN"@.len());
}

/// Law: the preference block is there exactly for a personal text that is
/// not blank. It holds the trimmed text whole when that fits in 8000 bytes,
/// and otherwise the longest prefix of it that fits.
pub proof fn lemma_personal_block(personal: Option<Seq<char>>)
    ensures
        personal_text(personal).len() > 0 <==> (personal is Some && trim(personal->0).len() > 0),
        match personal {
            Some(p) => trim(p).len() > 0 ==> {
                let t = trim(p);
                let c = capped_personal(t);
                &&& personal_text(personal) == PERSONAL_HEAD@ + c
                &&& c == t.take(c.len() as int)
                &&& byte_len(c) <= PERSONAL_PROMPT_MAX_BYTES
                &&& (c.len() < t.len() ==> byte_len(t.take(c.len() as int + 1))
                    > PERSONAL_PROMPT_MAX_BYTES)
                &&& (byte_len(t) <= PERSONAL_PROMPT_MAX_BYTES ==> c == t)
            },
            None => true,
        },
{
    reveal_strlit("\n\nUser preference instructions (always honor when relevant):\n");
    if let Some(p) = personal {
        let t = trim(p);
        lemma_fit_count(t, PERSONAL_PROMPT_MAX_BYTES as int);
        assert(t.take(t.len() as int) =~= t);
        let c = capped_personal(t);
        assert(c.len() == fit_count(t, PERSONAL_PROMPT_MAX_BYTES as int));
        assert(c.take(c.len() as int) =~= c);
    }
}

// ---------------------------------------------------------------------------
// Recovering the user's request
// ---------------------------------------------------------------------------

/// `s` with every `<environment_context …>…</environment_context>` block
/// removed (tags matched without regard to ASCII case; an unclosed block runs
/// to the end).
pub open spec fn strip_env(s: Seq<char>) -> Seq<char>
    decreases s.len(),
{
    match find(lower(s), ENV_OPEN@) {
        None => s,
        Some(start) => {
            let end = match find(lower(s).skip(start), ENV_CLOSE@) {
                Some(i) => start + i + ENV_CLOSE@.len(),
                None => s.len() as int,
            };
            if 0 <= start < end <= s.len() {
                strip_env(s.take(start) + s.skip(end))
            } else {
                s
            }
        },
    }
}

fn strip_env_chars(s: &[char]) -> (r: Vec<char>)
    ensures
        r@ == strip_env(s@),
{
    let mut out = slice_of(s, 0, s.len());
    assert(out@ =~= s@);
    let open = lit(ENV_OPEN);
    let close = lit(ENV_CLOSE);
    loop
        invariant
            strip_env(out@) == strip_env(s@),
            open@ == ENV_OPEN@,
            close@ == ENV_CLOSE@,
        decreases out@.len(),
    {
        let low = to_lower(out.as_slice());
        let start = match find_str(low.as_slice(), ENV_OPEN) {
            Some(i) => i,
            None => {
                return out;
            },
        };
        let n = out.len();
        assert(start + open@.len() <= n);
        let rest = slice_of(low.as_slice(), start, n);
        assert(rest@ =~= lower(out@).skip(start as int));
        let end = match find_str(rest.as_slice(), ENV_CLOSE) {
            Some(i) => {
                assert(i + close@.len() <= n - start);
                start + i + close.len()
            },
            None => n,
        };
        proof {
            reveal_strlit("<environment_context");
            reveal_strlit("</environment_context>");
        }
        let mut next = slice_of(out.as_slice(), 0, start);
        let tail = slice_of(out.as_slice(), end, n);
        push_all(&mut next, tail.as_slice());
        assert(next@ =~= out@.take(start as int) + out@.skip(end as int));
        out = next;
    }
}

/// Remove every `<environment_context>` block (Codex injects a separate user
/// turn with only this block).
pub fn strip_environment_context_blocks(text: &str) -> (r: String)
    ensures
        r@ == strip_env(text@),
{
    let v = chars_of(text);
    let out = strip_env_chars(v.as_slice());
    string_of(out.as_slice())
}

/// A turn body that carries no human text: blank, an environment block and
/// nothing else, or a permissions / skills / multi-agent dump.
pub open spec fn machine_only(text: Seq<char>) -> bool {
    let t = trim(text);
    let l = lower(t);
    ||| t.len() == 0
    ||| (starts_with(l, ENV_OPEN@) && contains(l, ENV_CLOSE@) && trim(strip_env(t)).len() == 0)
    ||| starts_with(l, "<permissions instructions>"@)
    ||| starts_with(l, "<skills_instructions>"@)
    ||| starts_with(l, "<multi_agent_mode>"@)
}

fn machine_only_chars(text: &[char]) -> (r: bool)
    ensures
        r == machine_only(text@),
{
    let t = trim_exec(text);
    if t.len() == 0 {
        return true;
    }
    let l = to_lower(t.as_slice());
    if has_prefix_str(l.as_slice(), ENV_OPEN) && contains_str(l.as_slice(), ENV_CLOSE) {
        let without = strip_env_chars(t.as_slice());
        let wt = trim_exec(without.as_slice());
        if wt.len() == 0 {
            return true;
        }
    }
    has_prefix_str(l.as_slice(), "<permissions instructions>") || has_prefix_str(
        l.as_slice(),
        "<skills_instructions>",
    ) || has_prefix_str(l.as_slice(), "<multi_agent_mode>")
}

/// Whether a stored user turn holds only machine-generated context.
pub fn looks_like_machine_only_user_turn(text: &str) -> (r: bool)
    ensures
        r == machine_only(text@),
{
    let v = chars_of(text);
    machine_only_chars(v.as_slice())
}

/// `t` cut before the first `m` and trimmed, when `m` occurs.
pub open spec fn cut_one(t: Seq<char>, m: Seq<char>) -> Seq<char> {
    match find(t, m) {
        Some(c) => trim(t.take(c)),
        None => t,
    }
}

/// Skill bodies appended after the request, cut off at their headers.
pub open spec fn cut_skill_sections(t: Seq<char>) -> Seq<char> {
    cut_one(
        cut_one(
            cut_one(
                cut_one(
                    cut_one(cut_one(cut_one(t, "\n\n## Skill:"@), "\n\n# Skill:"@), "\n\n### Skill:"@),
                    "\n\n<skill"@,
                ),
                "\n\nActive skills use the $ trigger"@,
            ),
            "\n\nActive skills use the / trigger"@,
        ),
        "\n\nAgentero injects skill instructions"@,
    )
}

/// A preamble of an older envelope without the exact marker.
pub open spec fn legacy_preamble(t: Seq<char>) -> bool {
    ||| starts_with(t, "You are an assistant working inside a Agentero research Vault"@)
    ||| starts_with(t, "You are an assistant working inside a Motif research Vault"@)
    ||| starts_with(t, "You are running the Agentero paper-reader workflow"@)
    ||| starts_with(t, "You are helping with a research vault"@)
    ||| starts_with(t, "You are answering questions about a local research vault"@)
    ||| starts_with(t, "Draft a Related Work section from local papers"@)
}

/// The text after the last blank line (`rsplit("\n\n").next()`).
pub open spec fn last_paragraph(t: Seq<char>) -> Seq<char> {
    match rfind(t, PARAGRAPH@) {
        Some(j) => t.skip(j + PARAGRAPH@.len()),
        None => t,
    }
}

/// The human-visible text of a stored turn body.
pub open spec fn display_text(text: Seq<char>) -> Seq<char> {
    let t = trim(strip_env(trim(text)));
    if t.len() == 0 || machine_only(t) {
        Seq::empty()
    } else {
        match rfind(t, USER_REQUEST_MARKER@) {
            Some(idx) => cut_skill_sections(trim(t.skip(idx + USER_REQUEST_MARKER@.len()))),
            None => if legacy_preamble(t) {
                let rest = trim(last_paragraph(t));
                if rest.len() > 0 && rest != t && !machine_only(rest) {
                    rest
                } else {
                    Seq::empty()
                }
            } else {
                t
            },
        }
    }
}

fn cut_at(t: Vec<char>, m: &str) -> (r: Vec<char>)
    ensures
        r@ == cut_one(t@, m@),
{
    match find_str(t.as_slice(), m) {
        Some(c) => {
            let p = slice_of(t.as_slice(), 0, c);
            assert(p@ =~= t@.take(c as int));
            trim_exec(p.as_slice())
        },
        None => t,
    }
}

fn last_paragraph_exec(t: &[char]) -> (r: Vec<char>)
    ensures
        r@ == last_paragraph(t@),
{
    let sep = lit(PARAGRAPH);
    match rfind_str(t, PARAGRAPH) {
        Some(j) => {
            proof {
                lemma_rfind_upto_sound(t@, sep@, t@.len() - sep@.len());
            }
            let n = t.len();
            assert(j + sep@.len() <= n);
            let r = slice_of(t, j + sep.len(), n);
            assert(r@ =~= t@.skip(j + sep@.len()));
            r
        },
        None => slice_of(t, 0, t.len()),
    }
}

/// Recover the human-visible user text from a stored turn body: environment
/// blocks dropped, the text after the last request marker (cut before any
/// appended skill body), the last paragraph of an older envelope, or the
/// text itself; empty when nothing human is left.
pub fn strip_prompt_envelope_for_display(text: &str) -> (r: String)
    ensures
        r@ == display_text(text@),
{
    let v = chars_of(text);
    let t0 = trim_exec(v.as_slice());
    let t1 = strip_env_chars(t0.as_slice());
    let t = trim_exec(t1.as_slice());
    if t.len() == 0 || machine_only_chars(t.as_slice()) {
        return String::new();
    }
    let marker = lit(USER_REQUEST_MARKER);
    match rfind_str(t.as_slice(), USER_REQUEST_MARKER) {
        Some(idx) => {
            proof {
                lemma_rfind_upto_sound(t@, marker@, t@.len() - marker@.len());
            }
            let after = slice_of(t.as_slice(), idx + marker.len(), t.len());
            assert(after@ =~= t@.skip(idx + marker@.len()));
            let mut rest = trim_exec(after.as_slice());
            rest = cut_at(rest, "\n\n## Skill:");
            rest = cut_at(rest, "\n\n# Skill:");
            rest = cut_at(rest, "\n\n### Skill:");
            rest = cut_at(rest, "\n\n<skill");
            rest = cut_at(rest, "\n\nActive skills use the $ trigger");
            rest = cut_at(rest, "\n\nActive skills use the / trigger");
            rest = cut_at(rest, "\n\nAgentero injects skill instructions");
            string_of(rest.as_slice())
        },
        None => {
            let ts = t.as_slice();
            if has_prefix_str(ts, "You are an assistant working inside a Agentero research Vault")
                || has_prefix_str(ts, "You are an assistant working inside a Motif research Vault")
                || has_prefix_str(ts, "You are running the Agentero paper-reader workflow")
                || has_prefix_str(ts, "You are helping with a research vault")
                || has_prefix_str(ts, "You are answering questions about a local research vault")
                || has_prefix_str(ts, "Draft a Related Work section from local papers") {
                let last = last_paragraph_exec(ts);
                let rest = trim_exec(last.as_slice());
                if rest.len() > 0 && !eq(rest.as_slice(), ts) && !machine_only_chars(
                    rest.as_slice(),
                ) {
                    return string_of(rest.as_slice());
                }
                return String::new();
            }
            if machine_only_chars(ts) {
                return String::new();
            }
            string_of(ts)
        },
    }
}

// ---------------------------------------------------------------------------
// Round trip
// ---------------------------------------------------------------------------

proof fn lemma_head_first_char(
    workflow: Seq<char>,
    target: Option<Seq<char>>,
    style: SkillMentionStyle,
    skill: Seq<char>,
    lang: Option<Seq<char>>,
    personal: Option<Seq<char>>,
)
    ensures
        ({
            let h = prompt_head(workflow, target, style, skill, lang, personal);
            h.len() > 0 && (h[0] == 'Y' || h[0] == 'D' || h[0] == 'T' || h[0] == 'U')
        }),
{
    reveal_strlit("User request:\n");
    reveal_strlit("Target path (Vault-relative): `");
    reveal_strlit("You are helping with a research vault. Summarize the target paper (follow vault AGENTS.md for reading order and citations).");
    reveal_strlit("You are running the Agentero paper-reader workflow. ");
    reveal_strlit("You are answering questions about a local research vault (follow vault AGENTS.md; read only what you need).");
    reveal_strlit("Draft a Related Work section from local papers in this Vault (prefer each paper's NOTES.md; follow vault AGENTS.md).");
    reveal_strlit("You are an assistant working inside a Agentero research Vault (cwd is the vault root). Follow vault AGENTS.md.");
    let pre = head_before_marker(workflow, target, style, skill, lang, personal);
    let h = prompt_head(workflow, target, style, skill, lang, personal);
    if workflow == "translate"@ {
        match target {
            Some(t) => {
                assert(pre[0] == 'T');
            },
            None => {
                assert(pre.len() == 0);
                assert(h =~= USER_REQUEST_MARKER@);
            },
        }
    } else {
        let sys = system_text(workflow, style, skill);
        assert(sys.len() > 0 && (sys[0] == 'Y' || sys[0] == 'D'));
        assert(pre[0] == sys[0]);
    }
    assert(h[0] == 'Y' || h[0] == 'D' || h[0] == 'T' || h[0] == 'U');
}

/// Law: a prompt built for a user's request is shown as that request,
/// trimmed, whatever the workflow, target, skill, language and preference.
/// The request must hold something besides whitespace; once trimmed it must
/// not contain the request marker (before its trailing whitespace) or a
/// skill-section header; and the prompt must carry no environment-context
/// tag. On the other inputs the display differs from the request.
pub proof fn lemma_display_recovers_request(
    workflow: Seq<char>,
    user: Seq<char>,
    target: Option<Seq<char>>,
    style: SkillMentionStyle,
    skill: Seq<char>,
    lang: Option<Seq<char>>,
    personal: Option<Seq<char>>,
)
    requires
        trim(user).len() > 0,
        !contains(trim_end(user), USER_REQUEST_MARKER@),
        !contains(trim(user), "\n\n## Skill:"@),
        !contains(trim(user), "\n\n# Skill:"@),
        !contains(trim(user), "\n\n### Skill:"@),
        !contains(trim(user), "\n\n<skill"@),
        !contains(trim(user), "\n\nActive skills use the $ trigger"@),
        !contains(trim(user), "\n\nActive skills use the / trigger"@),
        !contains(trim(user), "\n\nAgentero injects skill instructions"@),
        !contains(lower(prompt_text(workflow, user, target, style, skill, lang, personal)), ENV_OPEN@),
    ensures
        display_text(prompt_text(workflow, user, target, style, skill, lang, personal)) == trim(user),
{
    let pre = head_before_marker(workflow, target, style, skill, lang, personal);
    let m = USER_REQUEST_MARKER@;
    let h = prompt_head(workflow, target, style, skill, lang, personal);
    let p = prompt_text(workflow, user, target, style, skill, lang, personal);
    lemma_head_first_char(workflow, target, style, skill, lang, personal);
    reveal_strlit("User request:\n");
    reveal_strlit("<environment_context");
    reveal_strlit("<permissions instructions>");
    reveal_strlit("<skills_instructions>");
    reveal_strlit("<multi_agent_mode>");
    assert(m.len() == 14);
    assert(h == pre + m);
    assert(p == h + user);
    // Where the request's text starts and ends.
    let un = user.len() as int;
    lemma_lead_bounds(user, 0);
    let a = lead(user, 0);
    assert(a < un) by {
        lemma_trail_bounds(user, a, un);
    }
    lemma_trail_positive(user, a);
    let e = trail(user, 0, un);
    lemma_trail_bounds(user, 0, un);
    lemma_trail_concat(h, user, p.len() as int);
    assert(lead(p, 0) == 0) by {
        assert(p[0] == h[0]);
    }
    let t = p.subrange(0, h.len() + e);
    assert(trim(p) == t);
    assert(t =~= h + user.take(e));
    // No environment block in the trimmed prompt.
    assert(!contains(lower(t), ENV_OPEN@)) by {
        lemma_no_match_in_slice(lower(p), 0, h.len() + e, ENV_OPEN@);
        lemma_lower_subrange(p, 0, h.len() + e);
    }
    assert(strip_env(t) == t);
    // The trimmed prompt is its own trim.
    assert(t[t.len() - 1] == user[e - 1]);
    lemma_trim_fixed(t);
    // It is not a machine-only turn.
    let l = lower(t);
    assert(l[0] == lower_char(h[0]));
    assert(!machine_only(t)) by {
        assert(l[0] != '<');
        assert(!starts_with(l, ENV_OPEN@)) by {
            assert(ENV_OPEN@[0] == '<');
            if starts_with(l, ENV_OPEN@) {
                assert(l.take(ENV_OPEN@.len() as int)[0] == l[0]);
            }
        }
        assert(!starts_with(l, "<permissions instructions>"@)) by {
            if starts_with(l, "<permissions instructions>"@) {
                assert(l.take(26)[0] == l[0]);
            }
        }
        assert(!starts_with(l, "<skills_instructions>"@)) by {
            if starts_with(l, "<skills_instructions>"@) {
                assert(l.take(21)[0] == l[0]);
            }
        }
        assert(!starts_with(l, "<multi_agent_mode>"@)) by {
            if starts_with(l, "<multi_agent_mode>"@) {
                assert(l.take(18)[0] == l[0]);
            }
        }
    }
    // The last marker is the one the envelope put before the request.
    let k = pre.len() as int;
    assert(match_at(t, m, k)) by {
        assert(t.subrange(k, k + 14) =~= m);
    }
    assert forall|q: int| k < q <= t.len() - 14 implies !match_at(t, m, q) by {
        if q < k + 14 {
            assert(t[q] == m[q - k]);
            assert(m[q - k] != 'U');
            if match_at(t, m, q) {
                assert(t.subrange(q, q + 14)[0] == t[q]);
            }
        } else if match_at(t, m, q) {
            let ut = user.take(e);
            assert(t.subrange(q, q + 14) =~= ut.subrange(q - h.len(), q - h.len() + 14));
            assert(ut =~= trim_end(user));
            assert(match_at(ut, m, q - h.len()));
            lemma_find_from_sound(ut, m, 0);
        }
    }
    lemma_rfind_upto_complete(t, m, t.len() - 14, k);
    assert(rfind(t, m) == Some(k));
    assert(t.skip(k + 14) =~= trim_end(user));
    lemma_trim_of_trim_end(user);
    assert(cut_skill_sections(trim(user)) == trim(user));
}


// ---------------------------------------------------------------------------
// Recovering the request from the pieces of a prompt
// ---------------------------------------------------------------------------

/// `s` holds no environment-context tag, in any ASCII case.
pub open spec fn env_free(s: Seq<char>) -> bool {
    !contains(lower(s), ENV_OPEN@)
}

/// A character that cannot stand inside an environment-context tag.
spec fn breaks_env(c: char) -> bool {
    forall|i: int| 0 <= i < ENV_OPEN@.len() ==> ENV_OPEN@[i] != lower_char(c)
}

/// Text without `<` holds no environment-context tag.
proof fn lemma_env_free_without_lt(s: Seq<char>)
    requires
        forall|i: int| 0 <= i < s.len() ==> s[i] != '<',
    ensures
        env_free(s),
{
    reveal_strlit("<environment_context");
    let l = lower(s);
    lemma_find_from_sound(l, ENV_OPEN@, 0);
    if contains(l, ENV_OPEN@) {
        let j = find(l, ENV_OPEN@)->0;
        assert(l.subrange(j, j + ENV_OPEN@.len())[0] == ENV_OPEN@[0]);
        assert(l[j] == '<');
        assert(s[j] != '<');
    }
}

/// A part of tag-free text is tag-free.
proof fn lemma_env_free_slice(s: Seq<char>, a: int, b: int)
    requires
        0 <= a <= b <= s.len(),
        env_free(s),
    ensures
        env_free(s.subrange(a, b)),
{
    lemma_no_match_in_slice(lower(s), a, b, ENV_OPEN@);
    lemma_lower_subrange(s, a, b);
}

/// Two tag-free texts joined where a tag cannot run across stay tag-free.
proof fn lemma_env_free_join(a: Seq<char>, b: Seq<char>)
    requires
        env_free(a),
        env_free(b),
        (a.len() > 0 && breaks_env(a.last())) || (b.len() > 0 && breaks_env(b[0])),
    ensures
        env_free(a + b),
{
    reveal_strlit("<environment_context");
    let p = ENV_OPEN@;
    let la = lower(a);
    let lb = lower(b);
    let l = lower(a + b);
    assert(l =~= la + lb);
    lemma_find_from_sound(la, p, 0);
    lemma_find_from_sound(lb, p, 0);
    lemma_find_from_sound(l, p, 0);
    if contains(l, p) {
        let j = find(l, p)->0;
        assert(match_at(l, p, j));
        let n = la.len() as int;
        if j + p.len() <= n {
            assert(la.subrange(j, j + p.len()) =~= l.subrange(j, j + p.len()));
            assert(match_at(la, p, j));
        } else if j >= n {
            assert(lb.subrange(j - n, j - n + p.len()) =~= l.subrange(j, j + p.len()));
            assert(match_at(lb, p, j - n));
        } else {
            assert(l.subrange(j, j + p.len())[n - 1 - j] == l[n - 1]);
            assert(l.subrange(j, j + p.len())[n - j] == l[n]);
            assert(l[n - 1] == lower_char(a.last()));
            assert(l[n] == lower_char(b[0]));
        }
    }
}

/// The chain of joins that builds the target line, the marker and the
/// request keeps them tag-free.
proof fn lemma_env_free_request_tail(target: Option<Seq<char>>, user: Seq<char>)
    requires
        env_free(user),
        match target {
            Some(t) => env_free(t),
            None => true,
        },
    ensures
        env_free(target_line(target) + USER_REQUEST_MARKER@ + user),
        env_free(target_line(target)),
{
    reveal_strlit("<environment_context");
    reveal_strlit("Target path (Vault-relative): `");
    reveal_strlit("`\n");
    reveal_strlit("User request:\n");
    lemma_env_free_without_lt(TARGET_HEAD@);
    lemma_env_free_without_lt(TARGET_TAIL@);
    lemma_env_free_without_lt(USER_REQUEST_MARKER@);
    lemma_env_free_without_lt(Seq::<char>::empty());
    assert(breaks_env('`'));
    assert(breaks_env('\n'));
    assert(breaks_env('U'));
    let tl = target_line(target);
    if let Some(t) = target {
        lemma_env_free_join(TARGET_HEAD@, t);
        lemma_env_free_join(TARGET_HEAD@ + t, TARGET_TAIL@);
    }
    assert(USER_REQUEST_MARKER@[0] == 'U');
    if tl.len() == 0 {
        assert(tl + USER_REQUEST_MARKER@ =~= USER_REQUEST_MARKER@);
    } else {
        lemma_env_free_join(tl, USER_REQUEST_MARKER@);
    }
    lemma_env_free_join(tl + USER_REQUEST_MARKER@, user);
}

/// The role sentence is tag-free when the skill it may name is.
proof fn lemma_env_free_system(workflow: Seq<char>, style: SkillMentionStyle, skill: Seq<char>)
    requires
        env_free(skill),
    ensures
        env_free(system_text(workflow, style, skill)),
        system_text(workflow, style, skill).len() > 0,
{
    reveal_strlit("You are helping with a research vault. Summarize the target paper (follow vault AGENTS.md for reading order and citations).");
    reveal_strlit("You are running the Agentero paper-reader workflow. ");
    reveal_strlit(" Target is a paper folder under papers/; write lecture notes to that paper's NOTES.md.");
    reveal_strlit("You are answering questions about a local research vault (follow vault AGENTS.md; read only what you need).");
    reveal_strlit("Draft a Related Work section from local papers in this Vault (prefer each paper's NOTES.md; follow vault AGENTS.md).");
    reveal_strlit("You are an assistant working inside a Agentero research Vault (cwd is the vault root). Follow vault AGENTS.md.");
    reveal_strlit("Activate the skill with `");
    reveal_strlit("` (this agent uses the **$skill-id** syntax). Follow that skill strictly; Agentero also injects the full SKILL.md below if the runtime does not resolve it natively.");
    reveal_strlit("` (this agent uses the **/skill-id** syntax). Follow that skill strictly; Agentero also injects the full SKILL.md below if the runtime does not resolve it natively.");
    reveal_strlit("Follow the **paper-reader** skill instructions Agentero injects in this prompt (label `");
    reveal_strlit("`). This agent does not use Agentero Composer `$` as a runtime skill trigger — do not wait for a separate $ or / command.");
    reveal_strlit("<environment_context");
    lemma_env_free_without_lt(SYSTEM_SUMMARY@);
    lemma_env_free_without_lt(SYSTEM_QA@);
    lemma_env_free_without_lt(SYSTEM_RELATED@);
    lemma_env_free_without_lt(SYSTEM_FREE@);
    if workflow == "paper_reader"@ {
        lemma_env_free_without_lt(SYSTEM_READER_HEAD@);
        lemma_env_free_without_lt(SYSTEM_READER_TAIL@);
        lemma_env_free_without_lt(SKILL_ACTIVATE_HEAD@);
        lemma_env_free_without_lt(SKILL_DOLLAR_TAIL@);
        lemma_env_free_without_lt(SKILL_SLASH_TAIL@);
        lemma_env_free_without_lt(SKILL_INJECTED_HEAD@);
        lemma_env_free_without_lt(SKILL_INJECTED_TAIL@);
        lemma_env_free_without_lt(seq!['$']);
        lemma_env_free_without_lt(seq!['/']);
        assert(breaks_env('`'));
        assert(breaks_env(' '));
        assert(breaks_env('$'));
        assert(breaks_env('/'));
        let mention = skill_mention(skill, style);
        let (head, tail) = match style {
            SkillMentionStyle::Dollar => (SKILL_ACTIVATE_HEAD@, SKILL_DOLLAR_TAIL@),
            SkillMentionStyle::Slash => (SKILL_ACTIVATE_HEAD@, SKILL_SLASH_TAIL@),
            SkillMentionStyle::InjectedOnly => (SKILL_INJECTED_HEAD@, SKILL_INJECTED_TAIL@),
        };
        match style {
            SkillMentionStyle::Dollar => {
                lemma_env_free_join(seq!['$'], skill);
            },
            SkillMentionStyle::Slash => {
                lemma_env_free_join(seq!['/'], skill);
            },
            SkillMentionStyle::InjectedOnly => {},
        }
        assert(env_free(mention));
        assert(head.last() == '`');
        assert(tail[0] == '`');
        lemma_env_free_join(head, mention);
        lemma_env_free_join(head + mention, tail);
        let line = skill_line(style, skill);
        assert(line == head + mention + tail);
        assert(SYSTEM_READER_HEAD@.last() == ' ');
        assert(SYSTEM_READER_TAIL@[0] == ' ');
        lemma_env_free_join(SYSTEM_READER_HEAD@, line);
        lemma_env_free_join(SYSTEM_READER_HEAD@ + line, SYSTEM_READER_TAIL@);
    }
}

/// A prompt built from tag-free arguments is tag-free.
proof fn lemma_env_free_prompt(
    workflow: Seq<char>,
    user: Seq<char>,
    target: Option<Seq<char>>,
    style: SkillMentionStyle,
    skill: Seq<char>,
    lang: Option<Seq<char>>,
    personal: Option<Seq<char>>,
)
    requires
        env_free(user),
        env_free(skill),
        match target {
            Some(t) => env_free(t),
            None => true,
        },
        match personal {
            Some(p) => env_free(p),
            None => true,
        },
    ensures
        env_free(prompt_text(workflow, user, target, style, skill, lang, personal)),
{
    reveal_strlit(" Always write your entire response, including any notes saved to files, in ");
    reveal_strlit(", regardless of the language of the source material or this prompt.");
    reveal_strlit("Simplified Chinese (简体中文)");
    reveal_strlit("English");
    reveal_strlit("\n\nUser preference instructions (always honor when relevant):\n");
    reveal_strlit("\n\n");
    reveal_strlit("<environment_context");
    let p = prompt_text(workflow, user, target, style, skill, lang, personal);
    let tail = target_line(target) + USER_REQUEST_MARKER@ + user;
    lemma_env_free_request_tail(target, user);
    if workflow == "translate"@ {
        assert(p =~= tail);
    } else {
        lemma_env_free_system(workflow, style, skill);
        let sys = system_text(workflow, style, skill);
        let l = language_text(lang);
        let pt = personal_text(personal);
        assert(breaks_env(' '));
        assert(breaks_env('\n'));
        lemma_env_free_without_lt(LANGUAGE_HEAD@ + LANGUAGE_ZH@ + LANGUAGE_TAIL@);
        lemma_env_free_without_lt(LANGUAGE_HEAD@ + LANGUAGE_EN@ + LANGUAGE_TAIL@);
        lemma_env_free_without_lt(PERSONAL_HEAD@);
        lemma_env_free_without_lt(PARAGRAPH@);
        if l.len() == 0 {
            assert(sys + l =~= sys);
        } else {
            assert(l[0] == ' ');
            lemma_env_free_join(sys, l);
        }
        if pt.len() == 0 {
            assert(sys + l + pt =~= sys + l);
        } else {
            let q = personal->0;
            let t = trim(q);
            lemma_lead_bounds(q, 0);
            lemma_trail_bounds(q, lead(q, 0), q.len() as int);
            lemma_env_free_slice(q, lead(q, 0), trail(q, lead(q, 0), q.len() as int));
            lemma_fit_count(t, PERSONAL_PROMPT_MAX_BYTES as int);
            let c = capped_personal(t);
            lemma_env_free_slice(t, 0, c.len() as int);
            assert(c =~= t.subrange(0, c.len() as int));
            assert(PERSONAL_HEAD@.last() == '\n');
            lemma_env_free_join(PERSONAL_HEAD@, c);
            assert(pt[0] == '\n');
            lemma_env_free_join(sys + l, pt);
        }
        lemma_env_free_join(sys + l + pt, PARAGRAPH@);
        assert((sys + l + pt + PARAGRAPH@).last() == '\n');
        lemma_env_free_join(sys + l + pt + PARAGRAPH@, tail);
        assert(p =~= sys + l + pt + PARAGRAPH@ + tail);
    }
}

/// `q` starting with `p` occurs only where `p` does.
proof fn lemma_contains_prefix(s: Seq<char>, p: Seq<char>, q: Seq<char>)
    requires
        p.len() <= q.len(),
        q.take(p.len() as int) == p,
        contains(s, q),
    ensures
        contains(s, p),
{
    lemma_find_from_sound(s, q, 0);
    lemma_find_from_sound(s, p, 0);
    let j = find(s, q)->0;
    assert(s.subrange(j, j + p.len()) =~= s.subrange(j, j + q.len()).take(p.len() as int));
    assert(match_at(s, p, j));
}

/// Law: a prompt built for a user's request is shown as exactly that
/// request, whatever the workflow, target, skill, language and preference,
/// when the request is trimmed and not empty, holds neither the request
/// marker nor a blank line, and no argument holds an environment-context tag
/// (in any ASCII case).
pub proof fn lemma_display_recovers_plain_request(
    workflow: Seq<char>,
    user: Seq<char>,
    target: Option<Seq<char>>,
    style: SkillMentionStyle,
    skill: Seq<char>,
    lang: Option<Seq<char>>,
    personal: Option<Seq<char>>,
)
    requires
        user == trim(user),
        user.len() > 0,
        !contains(user, USER_REQUEST_MARKER@),
        !contains(user, PARAGRAPH@),
        env_free(user),
        env_free(skill),
        match target {
            Some(t) => env_free(t),
            None => true,
        },
        match personal {
            Some(p) => env_free(p),
            None => true,
        },
    ensures
        display_text(prompt_text(workflow, user, target, style, skill, lang, personal)) == user,
{
    reveal_strlit("\n\n");
    reveal_strlit("\n\n## Skill:");
    reveal_strlit("\n\n# Skill:");
    reveal_strlit("\n\n### Skill:");
    reveal_strlit("\n\n<skill");
    reveal_strlit("\n\nActive skills use the $ trigger");
    reveal_strlit("\n\nActive skills use the / trigger");
    reveal_strlit("\n\nAgentero injects skill instructions");
    lemma_env_free_prompt(workflow, user, target, style, skill, lang, personal);
    let n = user.len() as int;
    lemma_lead_bounds(user, 0);
    lemma_trail_bounds(user, lead(user, 0), n);
    lemma_trail_bounds(user, 0, n);
    assert(lead(user, 0) == 0) by {
        if lead(user, 0) > 0 {
            assert(trim(user).len() < n);
        }
    }
    assert(trail(user, 0, n) == n);
    assert(trim_end(user) =~= user);
    let hs = seq![
        "\n\n## Skill:"@,
        "\n\n# Skill:"@,
        "\n\n### Skill:"@,
        "\n\n<skill"@,
        "\n\nActive skills use the $ trigger"@,
        "\n\nActive skills use the / trigger"@,
        "\n\nAgentero injects skill instructions"@,
    ];
    assert forall|k: int| 0 <= k < hs.len() implies !contains(user, #[trigger] hs[k]) by {
        assert(hs[k].take(2) =~= PARAGRAPH@);
        if contains(user, hs[k]) {
            lemma_contains_prefix(user, PARAGRAPH@, hs[k]);
        }
    }
    assert(!contains(user, hs[0]));
    assert(!contains(user, hs[1]));
    assert(!contains(user, hs[2]));
    assert(!contains(user, hs[3]));
    assert(!contains(user, hs[4]));
    assert(!contains(user, hs[5]));
    assert(!contains(user, hs[6]));
    lemma_display_recovers_request(workflow, user, target, style, skill, lang, personal);
}


// ---------------------------------------------------------------------------
// Which phrases a whole prompt holds
// ---------------------------------------------------------------------------

/// Character `c` does not occur in `p`.
spec fn absent_from(c: char, p: Seq<char>) -> bool {
    forall|i: int| 0 <= i < p.len() ==> p[i] != c
}

/// An occurrence makes `p` found.
proof fn lemma_found_at(s: Seq<char>, p: Seq<char>, j: int)
    requires
        match_at(s, p, j),
    ensures
        contains(s, p),
{
    lemma_find_from_sound(s, p, 0);
}

/// Text in which no two neighbours spell the first two characters of `p`
/// does not hold `p`.
proof fn lemma_free_by_pair(s: Seq<char>, p: Seq<char>)
    requires
        p.len() >= 2,
        forall|i: int| 0 <= i < s.len() - 1 ==> !(#[trigger] s[i] == p[0] && s[i + 1] == p[1]),
    ensures
        !contains(s, p),
{
    lemma_find_from_sound(s, p, 0);
    if contains(s, p) {
        let j = find(s, p)->0;
        assert(s.subrange(j, j + p.len())[0] == s[j]);
        assert(s.subrange(j, j + p.len())[1] == s[j + 1]);
    }
}

/// Text shorter than `p` does not hold it.
proof fn lemma_free_short(s: Seq<char>, p: Seq<char>)
    requires
        s.len() < p.len(),
    ensures
        !contains(s, p),
{
    lemma_find_from_sound(s, p, 0);
}

/// Two texts without `p`, joined where `p` cannot run across, hold no `p`.
proof fn lemma_free_join(a: Seq<char>, b: Seq<char>, p: Seq<char>)
    requires
        p.len() > 0,
        !contains(a, p),
        !contains(b, p),
        (a.len() > 0 && absent_from(a.last(), p)) || (b.len() > 0 && absent_from(b[0], p)),
    ensures
        !contains(a + b, p),
{
    let l = a + b;
    lemma_find_from_sound(a, p, 0);
    lemma_find_from_sound(b, p, 0);
    lemma_find_from_sound(l, p, 0);
    if contains(l, p) {
        let j = find(l, p)->0;
        let n = a.len() as int;
        if j + p.len() <= n {
            assert(a.subrange(j, j + p.len()) =~= l.subrange(j, j + p.len()));
            assert(match_at(a, p, j));
        } else if j >= n {
            assert(b.subrange(j - n, j - n + p.len()) =~= l.subrange(j, j + p.len()));
            assert(match_at(b, p, j - n));
        } else {
            assert(l.subrange(j, j + p.len())[n - 1 - j] == l[n - 1]);
            assert(l.subrange(j, j + p.len())[n - j] == l[n]);
        }
    }
}

/// The target line, marker and request hold no `p` when neither the
/// arguments nor the fixed texts do and `p` has no backtick or newline.
proof fn lemma_free_request_tail(target: Option<Seq<char>>, user: Seq<char>, p: Seq<char>)
    requires
        p.len() > 0,
        absent_from('`', p),
        absent_from('\n', p),
        !contains(TARGET_HEAD@, p),
        !contains(TARGET_TAIL@, p),
        !contains(USER_REQUEST_MARKER@, p),
        !contains(user, p),
        match target {
            Some(t) => !contains(t, p),
            None => true,
        },
    ensures
        !contains(target_line(target) + USER_REQUEST_MARKER@ + user, p),
        !contains(target_line(target), p),
{
    reveal_strlit("Target path (Vault-relative): `");
    reveal_strlit("`\n");
    reveal_strlit("User request:\n");
    let tl = target_line(target);
    lemma_free_short(Seq::<char>::empty(), p);
    if let Some(t) = target {
        lemma_free_join(TARGET_HEAD@, t, p);
        lemma_free_join(TARGET_HEAD@ + t, TARGET_TAIL@, p);
    }
    if tl.len() == 0 {
        assert(tl + USER_REQUEST_MARKER@ =~= USER_REQUEST_MARKER@);
    } else {
        assert(tl.last() == '\n');
        lemma_free_join(tl, USER_REQUEST_MARKER@, p);
    }
    lemma_free_join(tl + USER_REQUEST_MARKER@, user, p);
}

/// The fixed texts around the paper-reader skill, each taken with its
/// neighbour so that every join falls on a backtick.
spec fn reader_pieces(style: SkillMentionStyle) -> (Seq<char>, Seq<char>) {
    match style {
        SkillMentionStyle::Dollar => (
            SYSTEM_READER_HEAD@ + SKILL_ACTIVATE_HEAD@,
            SKILL_DOLLAR_TAIL@ + SYSTEM_READER_TAIL@,
        ),
        SkillMentionStyle::Slash => (
            SYSTEM_READER_HEAD@ + SKILL_ACTIVATE_HEAD@,
            SKILL_SLASH_TAIL@ + SYSTEM_READER_TAIL@,
        ),
        SkillMentionStyle::InjectedOnly => (
            SYSTEM_READER_HEAD@ + SKILL_INJECTED_HEAD@,
            SKILL_INJECTED_TAIL@ + SYSTEM_READER_TAIL@,
        ),
    }
}

/// The role sentence holds no `p` when the skill and the fixed texts do
/// not, and `p` has no backtick, `$` or `/`.
proof fn lemma_free_system(workflow: Seq<char>, style: SkillMentionStyle, skill: Seq<char>, p: Seq<
    char,
>)
    requires
        p.len() >= 2,
        absent_from('`', p),
        absent_from('$', p),
        absent_from('/', p),
        !contains(skill, p),
        !contains(SYSTEM_SUMMARY@, p),
        !contains(SYSTEM_QA@, p),
        !contains(SYSTEM_RELATED@, p),
        !contains(SYSTEM_FREE@, p),
        !contains(reader_pieces(style).0, p),
        !contains(reader_pieces(style).1, p),
    ensures
        !contains(system_text(workflow, style, skill), p),
        system_text(workflow, style, skill).len() > 0,
        system_text(workflow, style, skill).last() == '.',
{
    reveal_strlit("You are helping with a research vault. Summarize the target paper (follow vault AGENTS.md for reading order and citations).");
    reveal_strlit("You are running the Agentero paper-reader workflow. ");
    reveal_strlit(" Target is a paper folder under papers/; write lecture notes to that paper's NOTES.md.");
    reveal_strlit("You are answering questions about a local research vault (follow vault AGENTS.md; read only what you need).");
    reveal_strlit("Draft a Related Work section from local papers in this Vault (prefer each paper's NOTES.md; follow vault AGENTS.md).");
    reveal_strlit("You are an assistant working inside a Agentero research Vault (cwd is the vault root). Follow vault AGENTS.md.");
    reveal_strlit("Activate the skill with `");
    reveal_strlit("` (this agent uses the **$skill-id** syntax). Follow that skill strictly; Agentero also injects the full SKILL.md below if the runtime does not resolve it natively.");
    reveal_strlit("` (this agent uses the **/skill-id** syntax). Follow that skill strictly; Agentero also injects the full SKILL.md below if the runtime does not resolve it natively.");
    reveal_strlit("Follow the **paper-reader** skill instructions Agentero injects in this prompt (label `");
    reveal_strlit("`). This agent does not use Agentero Composer `$` as a runtime skill trigger — do not wait for a separate $ or / command.");
    reveal_strlit("summary");
    reveal_strlit("paper_reader");
    if workflow == "paper_reader"@ {
        assert("paper_reader"@.len() != "summary"@.len());
        let (front, back) = reader_pieces(style);
        let mention = skill_mention(skill, style);
        match style {
            SkillMentionStyle::Dollar => {
                lemma_free_short(seq!['$'], p);
                lemma_free_join(seq!['$'], skill, p);
            },
            SkillMentionStyle::Slash => {
                lemma_free_short(seq!['/'], p);
                lemma_free_join(seq!['/'], skill, p);
            },
            SkillMentionStyle::InjectedOnly => {},
        }
        assert(front.last() == '`');
        assert(back[0] == '`');
        lemma_free_join(front, mention, p);
        lemma_free_join(front + mention, back, p);
        assert(system_text(workflow, style, skill) =~= front + mention + back);
    }
}

/// The phrase that opens the response-language sentence.
pub open spec fn language_phrase() -> Seq<char> {
    "Always write your entire response"@
}

/// The phrase that opens the preference block.
pub open spec fn preference_phrase() -> Seq<char> {
    "User preference instructions"@
}

/// No fixed text of the envelope other than the language sentence holds
/// `p`, judged by its first two characters.
proof fn lemma_fixed_texts_free(p: Seq<char>, style: SkillMentionStyle)
    requires
        p.len() >= 2,
        p[0] == 'A' && p[1] == 'l' || p[0] == 'U' && p[1] == 's',
    ensures
        !contains(SYSTEM_SUMMARY@, p),
        !contains(SYSTEM_QA@, p),
        !contains(SYSTEM_RELATED@, p),
        !contains(SYSTEM_FREE@, p),
        !contains(reader_pieces(style).0, p),
        !contains(reader_pieces(style).1, p),
        !contains(TARGET_HEAD@, p),
        !contains(TARGET_TAIL@, p),
        !contains(PARAGRAPH@, p),
        p[0] == 'U' ==> !contains(LANGUAGE_HEAD@ + LANGUAGE_ZH@ + LANGUAGE_TAIL@, p),
        p[0] == 'U' ==> !contains(LANGUAGE_HEAD@ + LANGUAGE_EN@ + LANGUAGE_TAIL@, p),
        p[0] == 'A' ==> !contains(PERSONAL_HEAD@, p),
{
    reveal_strlit("You are helping with a research vault. Summarize the target paper (follow vault AGENTS.md for reading order and citations).");
    reveal_strlit("You are running the Agentero paper-reader workflow. ");
    reveal_strlit(" Target is a paper folder under papers/; write lecture notes to that paper's NOTES.md.");
    reveal_strlit("You are answering questions about a local research vault (follow vault AGENTS.md; read only what you need).");
    reveal_strlit("Draft a Related Work section from local papers in this Vault (prefer each paper's NOTES.md; follow vault AGENTS.md).");
    reveal_strlit("You are an assistant working inside a Agentero research Vault (cwd is the vault root). Follow vault AGENTS.md.");
    reveal_strlit("Activate the skill with `");
    reveal_strlit("` (this agent uses the **$skill-id** syntax). Follow that skill strictly; Agentero also injects the full SKILL.md below if the runtime does not resolve it natively.");
    reveal_strlit("` (this agent uses the **/skill-id** syntax). Follow that skill strictly; Agentero also injects the full SKILL.md below if the runtime does not resolve it natively.");
    reveal_strlit("Follow the **paper-reader** skill instructions Agentero injects in this prompt (label `");
    reveal_strlit("`). This agent does not use Agentero Composer `$` as a runtime skill trigger — do not wait for a separate $ or / command.");
    reveal_strlit("Target path (Vault-relative): `");
    reveal_strlit("`\n");
    reveal_strlit("User request:\n");
    reveal_strlit(" Always write your entire response, including any notes saved to files, in ");
    reveal_strlit(", regardless of the language of the source material or this prompt.");
    reveal_strlit("Simplified Chinese (简体中文)");
    reveal_strlit("English");
    reveal_strlit("\n\nUser preference instructions (always honor when relevant):\n");
    reveal_strlit("\n\n");
    lemma_free_by_pair(SYSTEM_SUMMARY@, p);
    lemma_free_by_pair(SYSTEM_QA@, p);
    lemma_free_by_pair(SYSTEM_RELATED@, p);
    lemma_free_by_pair(SYSTEM_FREE@, p);
    lemma_free_by_pair(reader_pieces(style).0, p);
    lemma_free_by_pair(reader_pieces(style).1, p);
    lemma_free_by_pair(TARGET_HEAD@, p);
    lemma_free_by_pair(TARGET_TAIL@, p);
    lemma_free_by_pair(PARAGRAPH@, p);
    if p[0] == 'U' {
        lemma_free_by_pair(LANGUAGE_HEAD@ + LANGUAGE_ZH@ + LANGUAGE_TAIL@, p);
        lemma_free_by_pair(LANGUAGE_HEAD@ + LANGUAGE_EN@ + LANGUAGE_TAIL@, p);
    } else {
        lemma_free_by_pair(PERSONAL_HEAD@, p);
    }
}

/// The prompt of a non-translate workflow, in its parts.
proof fn lemma_prompt_parts(
    workflow: Seq<char>,
    user: Seq<char>,
    target: Option<Seq<char>>,
    style: SkillMentionStyle,
    skill: Seq<char>,
    lang: Option<Seq<char>>,
    personal: Option<Seq<char>>,
)
    requires
        workflow != "translate"@,
    ensures
        prompt_text(workflow, user, target, style, skill, lang, personal) == system_text(
            workflow,
            style,
            skill,
        ) + language_text(lang) + personal_text(personal) + PARAGRAPH@ + (target_line(target)
            + USER_REQUEST_MARKER@ + user),
{
    assert(prompt_text(workflow, user, target, style, skill, lang, personal) =~= system_text(
        workflow,
        style,
        skill,
    ) + language_text(lang) + personal_text(personal) + PARAGRAPH@ + (target_line(target)
        + USER_REQUEST_MARKER@ + user));
}

/// Law: outside the translate workflow, the response-language sentence is
/// in the prompt exactly when the language is `zh-CN` or `en`, naming
/// Simplified Chinese or English, provided no argument holds its opening
/// phrase itself.
pub proof fn lemma_prompt_language_phrase(
    workflow: Seq<char>,
    user: Seq<char>,
    target: Option<Seq<char>>,
    style: SkillMentionStyle,
    skill: Seq<char>,
    lang: Option<Seq<char>>,
    personal: Option<Seq<char>>,
)
    requires
        workflow != "translate"@,
        !contains(user, language_phrase()),
        !contains(skill, language_phrase()),
        match target {
            Some(t) => !contains(t, language_phrase()),
            None => true,
        },
        match personal {
            Some(q) => !contains(q, language_phrase()),
            None => true,
        },
    ensures
        contains(prompt_text(workflow, user, target, style, skill, lang, personal), language_phrase())
            <==> (lang == Some("zh-CN"@) || lang == Some("en"@)),
        lang == Some("zh-CN"@) ==> contains(
            prompt_text(workflow, user, target, style, skill, lang, personal),
            "Simplified Chinese"@,
        ),
        lang == Some("en"@) ==> contains(
            prompt_text(workflow, user, target, style, skill, lang, personal),
            " in English"@,
        ),
{
    reveal_strlit(" Always write your entire response, including any notes saved to files, in ");
    reveal_strlit(", regardless of the language of the source material or this prompt.");
    reveal_strlit("Simplified Chinese (简体中文)");
    reveal_strlit("English");
    reveal_strlit("\n\nUser preference instructions (always honor when relevant):\n");
    reveal_strlit("\n\n");
    reveal_strlit("Always write your entire response");
    reveal_strlit("Simplified Chinese");
    reveal_strlit(" in English");
    reveal_strlit("zh-CN");
    reveal_strlit("en");
    assert("en"@.len() != "zh-CN"@.len());
    let ph = language_phrase();
    let pr = prompt_text(workflow, user, target, style, skill, lang, personal);
    lemma_prompt_parts(workflow, user, target, style, skill, lang, personal);
    let sys = system_text(workflow, style, skill);
    let l = language_text(lang);
    let pt = personal_text(personal);
    let tail = target_line(target) + USER_REQUEST_MARKER@ + user;
    let n = sys.len() as int;
    if lang == Some("zh-CN"@) || lang == Some("en"@) {
        let name = if lang == Some("zh-CN"@) {
            LANGUAGE_ZH@
        } else {
            LANGUAGE_EN@
        };
        assert(l == LANGUAGE_HEAD@ + name + LANGUAGE_TAIL@);
        let h = LANGUAGE_HEAD@.len() as int;
        assert(pr.subrange(n + 1, n + 1 + ph.len()) =~= ph);
        lemma_found_at(pr, ph, n + 1);
        if lang == Some("zh-CN"@) {
            assert(pr.subrange(n + h, n + h + 18) =~= "Simplified Chinese"@);
            lemma_found_at(pr, "Simplified Chinese"@, n + h);
        } else {
            assert(pr.subrange(n + h - 4, n + h + 7) =~= " in English"@);
            lemma_found_at(pr, " in English"@, n + h - 4);
        }
    } else {
        assert(l.len() == 0);
        lemma_fixed_texts_free(ph, style);
        lemma_free_system(workflow, style, skill, ph);
        reveal_strlit("User request:\n");
        lemma_free_short(USER_REQUEST_MARKER@, ph);
        lemma_free_request_tail(target, user, ph);
        assert(sys + l =~= sys);
        if pt.len() == 0 {
            assert(sys + l + pt =~= sys);
        } else {
            let q = personal->0;
            let t = trim(q);
            lemma_lead_bounds(q, 0);
            lemma_trail_bounds(q, lead(q, 0), q.len() as int);
            lemma_no_match_in_slice(q, lead(q, 0), trail(q, lead(q, 0), q.len() as int), ph);
            lemma_fit_count(t, PERSONAL_PROMPT_MAX_BYTES as int);
            let c = capped_personal(t);
            lemma_no_match_in_slice(t, 0, c.len() as int, ph);
            assert(c =~= t.subrange(0, c.len() as int));
            lemma_free_join(PERSONAL_HEAD@, c, ph);
            lemma_free_join(sys + l, pt, ph);
        }
        lemma_free_join(sys + l + pt, PARAGRAPH@, ph);
        lemma_free_join(sys + l + pt + PARAGRAPH@, tail, ph);
    }
}

/// Law: outside the translate workflow, the preference block is in the
/// prompt exactly when the personal text is not blank, and it holds the
/// trimmed text whole when that fits in 8000 bytes, provided no other
/// argument holds the block's opening phrase.
pub proof fn lemma_prompt_preference_phrase(
    workflow: Seq<char>,
    user: Seq<char>,
    target: Option<Seq<char>>,
    style: SkillMentionStyle,
    skill: Seq<char>,
    lang: Option<Seq<char>>,
    personal: Option<Seq<char>>,
)
    requires
        workflow != "translate"@,
        !contains(user, preference_phrase()),
        !contains(skill, preference_phrase()),
        match target {
            Some(t) => !contains(t, preference_phrase()),
            None => true,
        },
    ensures
        contains(
            prompt_text(workflow, user, target, style, skill, lang, personal),
            preference_phrase(),
        ) <==> (personal is Some && trim(personal->0).len() > 0),
        personal is Some && trim(personal->0).len() > 0 && byte_len(trim(personal->0))
            <= PERSONAL_PROMPT_MAX_BYTES ==> contains(
            prompt_text(workflow, user, target, style, skill, lang, personal),
            trim(personal->0),
        ),
{
    reveal_strlit(" Always write your entire response, including any notes saved to files, in ");
    reveal_strlit(", regardless of the language of the source material or this prompt.");
    reveal_strlit("Simplified Chinese (简体中文)");
    reveal_strlit("English");
    reveal_strlit("\n\nUser preference instructions (always honor when relevant):\n");
    reveal_strlit("\n\n");
    reveal_strlit("User request:\n");
    reveal_strlit("User preference instructions");
    let ph = preference_phrase();
    let pr = prompt_text(workflow, user, target, style, skill, lang, personal);
    lemma_prompt_parts(workflow, user, target, style, skill, lang, personal);
    let sys = system_text(workflow, style, skill);
    let l = language_text(lang);
    let pt = personal_text(personal);
    let tail = target_line(target) + USER_REQUEST_MARKER@ + user;
    let n = (sys.len() + l.len()) as int;
    if personal is Some && trim(personal->0).len() > 0 {
        let t = trim(personal->0);
        lemma_fit_count(t, PERSONAL_PROMPT_MAX_BYTES as int);
        let c = capped_personal(t);
        assert(pt == PERSONAL_HEAD@ + c);
        assert(pr.subrange(n + 2, n + 2 + ph.len()) =~= ph);
        lemma_found_at(pr, ph, n + 2);
        if byte_len(t) <= PERSONAL_PROMPT_MAX_BYTES {
            assert(t.take(t.len() as int) =~= t);
            let h = PERSONAL_HEAD@.len() as int;
            assert(pr.subrange(n + h, n + h + t.len()) =~= t);
            lemma_found_at(pr, t, n + h);
        }
    } else {
        assert(pt.len() == 0);
        lemma_fixed_texts_free(ph, style);
        lemma_free_system(workflow, style, skill, ph);
        lemma_free_short(USER_REQUEST_MARKER@, ph);
        lemma_free_request_tail(target, user, ph);
        if l.len() == 0 {
            assert(sys + l =~= sys);
        } else {
            lemma_free_join(sys, l, ph);
        }
        assert(sys + l + pt =~= sys + l);
        lemma_free_join(sys + l, PARAGRAPH@, ph);
        lemma_free_join(sys + l + PARAGRAPH@, tail, ph);
        assert(pr =~= sys + l + PARAGRAPH@ + tail);
    }
}

/// Law: the prompt of each workflow other than translate opens with that
/// workflow's own role sentence: the summary, paper-reader, QA and
/// related-work sentences for `summary`, `paper_reader`, `qa` and
/// `related_work`, and the free-form one for any other workflow; these
/// sentences differ pairwise.
pub proof fn lemma_prompt_opens_with_role(
    workflow: Seq<char>,
    user: Seq<char>,
    target: Option<Seq<char>>,
    style: SkillMentionStyle,
    skill: Seq<char>,
    lang: Option<Seq<char>>,
    personal: Option<Seq<char>>,
)
    requires
        workflow != "translate"@,
    ensures
        ({
            let p = prompt_text(workflow, user, target, style, skill, lang, personal);
            &&& workflow == "summary"@ ==> starts_with(p, SYSTEM_SUMMARY@)
            &&& workflow == "paper_reader"@ ==> starts_with(p, SYSTEM_READER_HEAD@)
            &&& workflow == "qa"@ ==> starts_with(p, SYSTEM_QA@)
            &&& workflow == "related_work"@ ==> starts_with(p, SYSTEM_RELATED@)
            &&& workflow != "summary"@ && workflow != "paper_reader"@ && workflow != "qa"@
                && workflow != "related_work"@ ==> starts_with(p, SYSTEM_FREE@)
        }),
        SYSTEM_SUMMARY@ != SYSTEM_QA@,
        SYSTEM_SUMMARY@ != SYSTEM_RELATED@,
        SYSTEM_SUMMARY@ != SYSTEM_FREE@,
        SYSTEM_QA@ != SYSTEM_RELATED@,
        SYSTEM_QA@ != SYSTEM_FREE@,
        SYSTEM_RELATED@ != SYSTEM_FREE@,
{
    reveal_strlit("You are helping with a research vault. Summarize the target paper (follow vault AGENTS.md for reading order and citations).");
    reveal_strlit("You are running the Agentero paper-reader workflow. ");
    reveal_strlit("You are answering questions about a local research vault (follow vault AGENTS.md; read only what you need).");
    reveal_strlit("Draft a Related Work section from local papers in this Vault (prefer each paper's NOTES.md; follow vault AGENTS.md).");
    reveal_strlit("You are an assistant working inside a Agentero research Vault (cwd is the vault root). Follow vault AGENTS.md.");
    reveal_strlit("summary");
    reveal_strlit("paper_reader");
    reveal_strlit("qa");
    reveal_strlit("related_work");
    assert("summary"@.len() == 7 && "qa"@.len() == 2 && "paper_reader"@.len() == 12);
    assert("related_work"@.len() == 12 && "paper_reader"@[0] == 'p' && "related_work"@[0] == 'r');
    lemma_prompt_parts(workflow, user, target, style, skill, lang, personal);
    let p = prompt_text(workflow, user, target, style, skill, lang, personal);
    let sys = system_text(workflow, style, skill);
    let rest = language_text(lang) + personal_text(personal) + PARAGRAPH@ + (target_line(target)
        + USER_REQUEST_MARKER@ + user);
    assert(p =~= sys + rest);
    let c = if workflow == "summary"@ {
        SYSTEM_SUMMARY@
    } else if workflow == "paper_reader"@ {
        SYSTEM_READER_HEAD@
    } else if workflow == "qa"@ {
        SYSTEM_QA@
    } else if workflow == "related_work"@ {
        SYSTEM_RELATED@
    } else {
        SYSTEM_FREE@
    };
    assert(sys.take(c.len() as int) =~= c);
    assert(p.take(c.len() as int) =~= c);
    assert(SYSTEM_SUMMARY@[0] == 'Y' && SYSTEM_QA@[0] == 'Y' && SYSTEM_FREE@[0] == 'Y');
    assert(SYSTEM_RELATED@[0] == 'D');
    assert(SYSTEM_SUMMARY@[8] == 'h' && SYSTEM_QA@[8] == 'a' && SYSTEM_FREE@[8] == 'a');
    assert(SYSTEM_QA@[9] == 'n' && SYSTEM_FREE@[9] == 'n' && SYSTEM_QA@[10] == 's');
    assert(SYSTEM_FREE@[10] == ' ');
}

} // verus!
