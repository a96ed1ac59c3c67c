//! The MCP resources and prompt of the bundled skills: which skill a resource URI
//! names, and what the skill prompt asks for.
use vstd::prelude::*;

use crate::text::{owned, string_from_range, text_eq, to_chars};
use crate::view_state::{eq_ascii_ci, eq_ignore_ascii_case};

verus! {

/// The URI of the skills index.
pub const INDEX_URI: &'static str = "agent-desktop://skills";

/// The name of the skill prompt.
pub const SKILL_PROMPT: &'static str = "agent-desktop-skill";

/// What a skill resource URI names.
#[derive(Clone, Debug, PartialEq, Eq)]
pub enum SkillUri {
    /// The skills index.
    Index,
    /// A skill, with all its references (`full`) or one of them.
    Skill { name: String, full: bool, reference: Option<String> },
    /// Not a skill resource.
    Unknown,
}

/// The prefix of a skill's URI.
pub open spec fn skill_prefix() -> Seq<char> {
    "agent-desktop://skills/"@
}

/// The first `/` of a text is at `k`.
pub open spec fn first_slash_at(t: Seq<char>, k: int) -> bool {
    0 <= k < t.len() && t[k] == '/' && forall|j: int| 0 <= j < k ==> t[j] != '/'
}

/// What a URI names: the index; else, under the skill prefix, the skill named up to the
/// first `/`, followed by `full` (every reference) or a reference; else nothing.
pub open spec fn skill_uri_spec(uri: Seq<char>, r: SkillUri) -> bool {
    if uri == "agent-desktop://skills"@ {
        r == SkillUri::Index
    } else if uri.len() >= 23 && uri.take(23) == skill_prefix() {
        let tail = uri.skip(23);
        match r {
            SkillUri::Skill { name, full, reference } => {
                ||| (forall|j: int| 0 <= j < tail.len() ==> tail[j] != '/') && name@ == tail && !full && reference is None
                ||| exists|k: int|
                    #![trigger tail.take(k)]
                    first_slash_at(tail, k) && name@ == tail.take(k) && if tail.skip(k + 1) == "full"@ {
                        full && reference is None
                    } else {
                        !full && (reference matches Some(x) && x@ == tail.skip(k + 1))
                    }
            },
            _ => false,
        }
    } else {
        r == SkillUri::Unknown
    }
}

/// `read_resource`'s parsing of a skill URI.
pub fn parse_skill_uri(uri: &str) -> (r: SkillUri)
    ensures
        skill_uri_spec(uri@, r),
{
    proof {
        reveal_strlit("agent-desktop://skills/");
        reveal_strlit("agent-desktop://skills");
    }
    if text_eq(uri, "agent-desktop://skills") {
        return SkillUri::Index;
    }
    let chars = to_chars(uri);
    let prefix = to_chars("agent-desktop://skills/");
    if chars.len() < prefix.len() {
        return SkillUri::Unknown;
    }
    let mut i: usize = 0;
    while i < prefix.len()
        invariant
            i <= prefix.len(),
            uri@ != "agent-desktop://skills"@,
            prefix@ == skill_prefix(),
            prefix.len() == 23,
            chars@ == uri@,
            chars.len() >= 23,
            forall|q: int| 0 <= q < i ==> chars@[q] == prefix@[q],
        decreases prefix.len() - i,
    {
        if chars[i] != prefix[i] {
            assert(uri@.take(23)[i as int] != skill_prefix()[i as int]);
            return SkillUri::Unknown;
        }
        i = i + 1;
    }
    assert(uri@.take(23) =~= skill_prefix());
    let ghost tail = uri@.skip(23);
    let mut k: usize = 23;
    while k < chars.len() && chars[k] != '/'
        invariant
            23 <= k <= chars.len(),
            chars@ == uri@,
            tail == uri@.skip(23),
            forall|j: int| 0 <= j < k - 23 ==> tail[j] != '/',
        decreases chars.len() - k,
    {
        k = k + 1;
    }
    let name = string_from_range(&chars, 23, k);
    assert(name@ =~= tail.take(k - 23));
    if k == chars.len() {
        assert(tail.take(k - 23) =~= tail);
        return SkillUri::Skill { name, full: false, reference: None };
    }
    assert(first_slash_at(tail, k - 23));
    let selector = string_from_range(&chars, k + 1, chars.len());
    assert(selector@ =~= tail.skip(k - 23 + 1));
    if text_eq(selector.as_str(), "full") {
        return SkillUri::Skill { name, full: true, reference: None };
    }
    SkillUri::Skill { name, full: false, reference: Some(selector) }
}

/// What the skill prompt asks for: a skill (by default the main one) and whether every
/// reference is appended.
#[derive(Clone, Debug, PartialEq, Eq)]
pub struct PromptRequest {
    pub skill: String,
    pub full: bool,
}

/// The prompt is unknown.
#[derive(Clone, Copy, Debug, PartialEq, Eq, Structural)]
pub struct UnknownPrompt;

/// `get_prompt`'s argument rules: only the skill prompt exists; the skill defaults to
/// `agent-desktop`; `full` is the text `true` in any ASCII case.
pub fn prompt_request(name: Option<&str>, skill: Option<&str>, full: Option<&str>) -> (r: Result<
    PromptRequest,
    UnknownPrompt,
>)
    ensures
        r is Ok <==> (name matches Some(n) && n@ == "agent-desktop-skill"@),
        r matches Ok(p) ==> p.skill@ == (match skill {
            Some(s) => s@,
            None => "agent-desktop"@,
        }) && p.full == (match full {
            Some(f) => eq_ascii_ci(f@, "true"@),
            None => false,
        }),
{
    let n = match name {
        Some(n) => n,
        None => return Err(UnknownPrompt),
    };
    if !text_eq(n, "agent-desktop-skill") {
        return Err(UnknownPrompt);
    }
    let skill = match skill {
        Some(s) => owned(s),
        None => owned("agent-desktop"),
    };
    let full = match full {
        Some(f) => eq_ignore_ascii_case(f, "true"),
        None => false,
    };
    Ok(PromptRequest { skill, full })
}

} // verus!
