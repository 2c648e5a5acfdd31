//! How a skill is named in a prompt for each agent runtime.
use vstd::prelude::*;
use crate::text::{push_all, string_of, chars_of};

verus! {

/// How an agent runtime triggers a skill: `$id`, `/id`, or no
/// runtime trigger at all (the host injects the skill body).
#[derive(Debug, Clone, Copy, PartialEq, Eq)]
pub enum SkillMentionStyle {
    Dollar,
    Slash,
    InjectedOnly,
}

/// The mention of skill `id` in the given style.
pub open spec fn skill_mention(id: Seq<char>, style: SkillMentionStyle) -> Seq<char> {
    match style {
        SkillMentionStyle::Dollar => seq!['$'] + id,
        SkillMentionStyle::Slash => seq!['/'] + id,
        SkillMentionStyle::InjectedOnly => id,
    }
}

/// `$id`, `/id`, or the bare id when the runtime has no trigger syntax.
pub fn format_skill_mention(id: &str, style: SkillMentionStyle) -> (r: String)
    ensures
        r@ == skill_mention(id@, style),
{
    let idc = chars_of(id);
    let mut out: Vec<char> = Vec::new();
    match style {
        SkillMentionStyle::Dollar => out.push('$'),
        SkillMentionStyle::Slash => out.push('/'),
        SkillMentionStyle::InjectedOnly => {},
    }
    push_all(&mut out, idc.as_slice());
    proof {
        if style == SkillMentionStyle::InjectedOnly {
            assert(out@ =~= id@);
        } else {
            assert(out@ =~= skill_mention(id@, style));
        }
    }
    string_of(out.as_slice())
}

} // verus!
