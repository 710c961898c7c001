//! Prompt templates for the model stage: a system message and a user message,
//! so that instructions stay out of the user's text.
//!
//! - the system message sets the role and the hard rules;
//! - the user message carries only the text and the target;
//! - three presets: Minimal / Standard / StrictChars.
use vstd::prelude::*;

use crate::text::{decimal, decimal_exec, from_chars, replace_all, to_chars, trim, trim_exec};

verus! {

/// Default system prompt.
pub const DEFAULT_SYSTEM: &'static str = "你是文本压缩助手。

任务：将用户输入的文本压缩到指定字数以内。

要求：
- 保留核心信息、关键事实和原始语义。
- 删除重复、冗余、修饰性内容。
- 保持原文表达意图，不新增、不改写观点。
- 优先保留专有名词、数字、条件和结论。

输出规则：
- 只输出压缩后的文本。
- 不添加说明、标题、前缀、后缀或代码块。";

/// Default user template.
pub const DEFAULT_USER_TEMPLATE: &'static str = "目标字数：{target}
原文字数：{orig}

原文：
{text}";

/// Minimal preset: system prompt.
pub const MINIMAL_SYSTEM: &'static str = "压缩文本，保留核心语义，直接输出结果。";

/// Minimal preset: user template.
pub const MINIMAL_USER_TEMPLATE: &'static str = "压缩到 {target} 字以内：\n\n{text}";

/// Strict-length preset: system prompt (holds a `{target}` placeholder).
pub const STRICT_CHARS_SYSTEM: &'static str = "你是文本压缩助手。

任务：将用户输入的文本压缩到指定字数以内。

要求：
- 保留核心信息、关键事实和原始语义。
- 删除重复、冗余、修饰性内容。
- 保持原文表达意图，不新增、不改写观点。
- 优先保留专有名词、数字、条件和结论。

硬性要求：输出字数必须 ≤ {target}，超出请重新压缩。

输出规则：
- 只输出压缩后的文本。
- 不添加说明、标题、前缀、后缀或代码块。";

/// Strict-length preset: user template.
pub const STRICT_CHARS_USER_TEMPLATE: &'static str = "目标字数：{target}
原文字数：{orig}

原文：
{text}";

/// Parameters for building the messages.
pub struct PromptParams<'a> {
    pub text: &'a str,
    pub target_chars: usize,
    /// Custom system prompt (None: the default).
    pub custom_system: Option<&'a str>,
    /// Custom user template (None: the default).
    /// Placeholders: {text} / {target} / {orig} / {cut}
    pub custom_user_template: Option<&'a str>,
    /// The percentage to cut, substituted for `{cut}`; the caller computes it
    /// from the text's length and the target.
    pub cut_pct: u32,
}

/// A custom text is used when it is present and not blank.
pub open spec fn choose_custom(custom: Option<Seq<char>>, default: Seq<char>) -> Seq<char> {
    match custom {
        Some(c) => if trim(c).len() > 0 { c } else { default },
        None => default,
    }
}

/// The view of an optional string.
pub open spec fn opt_view(o: Option<&str>) -> Option<Seq<char>> {
    match o {
        Some(s) => Some(s@),
        None => None,
    }
}

/// The user message: `{text}`, `{target}`, `{orig}` and `{cut}` substituted in
/// that order.
pub open spec fn fill_user(template: Seq<char>, text: Seq<char>, target: nat, cut: nat) -> Seq<char> {
    let a = replace_all(template, "{text}"@, text);
    let b = replace_all(a, "{target}"@, decimal(target));
    let c = replace_all(b, "{orig}"@, decimal(text.len()));
    replace_all(c, "{cut}"@, decimal(cut))
}

/// The messages built from parameters: the system prompt unchanged, the user
/// template filled in.
pub open spec fn messages_with(
    text: Seq<char>,
    target: nat,
    custom_system: Option<Seq<char>>,
    custom_user: Option<Seq<char>>,
    cut: nat,
) -> (Seq<char>, Seq<char>) {
    (
        choose_custom(custom_system, DEFAULT_SYSTEM@),
        fill_user(choose_custom(custom_user, DEFAULT_USER_TEMPLATE@), text, target, cut),
    )
}

fn choose_custom_exec(custom: Option<&str>, default: &str) -> (r: Vec<char>)
    ensures
        r@ == choose_custom(opt_view(custom), default@),
{
    match custom {
        Some(c) => {
            let cv = to_chars(c);
            let t = trim_exec(&cv);
            if t.len() > 0 {
                cv
            } else {
                to_chars(default)
            }
        },
        None => to_chars(default),
    }
}

fn placeholder_lemmas()
    ensures
        "{text}"@.len() > 0,
        "{target}"@.len() > 0,
        "{orig}"@.len() > 0,
        "{cut}"@.len() > 0,
{
    proof {
        reveal_strlit("{text}");
        reveal_strlit("{target}");
        reveal_strlit("{orig}");
        reveal_strlit("{cut}");
    }
}

/// Fills the user template.
fn fill_user_exec(template: &Vec<char>, text: &str, target: usize, cut: u32) -> (r: Vec<char>)
    ensures
        r@ == fill_user(template@, text@, target as nat, cut as nat),
{
    placeholder_lemmas();
    let tv = to_chars(text);
    let a = crate::text::replace_exec(template, &to_chars("{text}"), &tv);
    let b = crate::text::replace_exec(&a, &to_chars("{target}"), &decimal_exec(target));
    let c = crate::text::replace_exec(&b, &to_chars("{orig}"), &decimal_exec(tv.len()));
    crate::text::replace_exec(&c, &to_chars("{cut}"), &decimal_exec(cut as usize))
}

/// Returns the (system, user) messages with the default prompts.
pub fn build_compress_messages(text: &str, target_chars: usize, cut_pct: u32) -> (r: (String, String))
    ensures
        (r.0@, r.1@) == messages_with(text@, target_chars as nat, None, None, cut_pct as nat),
{
    build_compress_messages_with(
        PromptParams {
            text,
            target_chars,
            custom_system: None,
            custom_user_template: None,
            cut_pct,
        },
    )
}

/// Returns the (system, user) messages, with custom prompts where given.
pub fn build_compress_messages_with(params: PromptParams) -> (r: (String, String))
    ensures
        (r.0@, r.1@) == messages_with(
            params.text@,
            params.target_chars as nat,
            opt_view(params.custom_system),
            opt_view(params.custom_user_template),
            params.cut_pct as nat,
        ),
{
    let system = choose_custom_exec(params.custom_system, DEFAULT_SYSTEM);
    let template = choose_custom_exec(params.custom_user_template, DEFAULT_USER_TEMPLATE);
    let user = fill_user_exec(&template, params.text, params.target_chars, params.cut_pct);
    (from_chars(&system), from_chars(&user))
}

/// The single-prompt form: system and user joined by a blank line.
pub fn build_compress_prompt(text: &str, target_chars: usize, cut_pct: u32) -> (r: String)
    ensures
        r@ == messages_with(text@, target_chars as nat, None, None, cut_pct as nat).0 + "\n\n"@
            + messages_with(text@, target_chars as nat, None, None, cut_pct as nat).1,
{
    let (system, user) = build_compress_messages(text, target_chars, cut_pct);
    let s = to_chars(system.as_str());
    let u = to_chars(user.as_str());
    let sep = to_chars("\n\n");
    let a = crate::text::concat2(&s, &sep);
    let b = crate::text::concat2(&a, &u);
    from_chars(&b)
}

/// The default system prompt (shown by the front end).
pub fn default_system() -> (s: &'static str)
    ensures
        s@ == DEFAULT_SYSTEM@,
{
    DEFAULT_SYSTEM
}

/// The default user template (shown by the front end).
pub fn default_user_template() -> (s: &'static str)
    ensures
        s@ == DEFAULT_USER_TEMPLATE@,
{
    DEFAULT_USER_TEMPLATE
}

// ==================== presets ====================

/// Preset prompt id.
#[derive(Debug, Clone, Copy, PartialEq, Eq, Structural)]
pub enum PresetPrompt {
    Minimal,
    Standard,
    StrictChars,
}

/// The preset named by an id; any other id means Standard.
pub open spec fn preset_of(s: Seq<char>) -> PresetPrompt {
    if s == "minimal"@ {
        PresetPrompt::Minimal
    } else if s == "strict_chars"@ {
        PresetPrompt::StrictChars
    } else {
        PresetPrompt::Standard
    }
}

/// Each preset's id.
pub open spec fn preset_id(p: PresetPrompt) -> Seq<char> {
    match p {
        PresetPrompt::Minimal => "minimal"@,
        PresetPrompt::Standard => "standard"@,
        PresetPrompt::StrictChars => "strict_chars"@,
    }
}

/// Each preset's display name.
pub open spec fn preset_name(p: PresetPrompt) -> Seq<char> {
    match p {
        PresetPrompt::Minimal => "极简"@,
        PresetPrompt::Standard => "标准"@,
        PresetPrompt::StrictChars => "严格字数"@,
    }
}

/// Each preset's system prompt.
pub open spec fn preset_system(p: PresetPrompt) -> Seq<char> {
    match p {
        PresetPrompt::Minimal => MINIMAL_SYSTEM@,
        PresetPrompt::Standard => DEFAULT_SYSTEM@,
        PresetPrompt::StrictChars => STRICT_CHARS_SYSTEM@,
    }
}

/// Each preset's user template.
pub open spec fn preset_user_template(p: PresetPrompt) -> Seq<char> {
    match p {
        PresetPrompt::Minimal => MINIMAL_USER_TEMPLATE@,
        PresetPrompt::Standard => DEFAULT_USER_TEMPLATE@,
        PresetPrompt::StrictChars => STRICT_CHARS_USER_TEMPLATE@,
    }
}

fn str_eq(a: &str, b: &str) -> (r: bool)
    ensures
        r == (a@ == b@),
{
    let av = to_chars(a);
    let bv = to_chars(b);
    if av.len() != bv.len() {
        return false;
    }
    let mut i: usize = 0;
    while i < av.len()
        invariant
            av@ == a@,
            bv@ == b@,
            av.len() == bv.len(),
            i <= av.len(),
            forall|k: int| 0 <= k < i ==> av@[k] == bv@[k],
        decreases av.len() - i,
    {
        if av[i] != bv[i] {
            return false;
        }
        i += 1;
    }
    assert(av@ =~= bv@);
    true
}

impl PresetPrompt {
    /// Parses an id: "minimal", "strict_chars", anything else Standard.
    pub fn from_str(s: &str) -> (p: Self)
        ensures
            p == preset_of(s@),
    {
        if str_eq(s, "minimal") {
            PresetPrompt::Minimal
        } else if str_eq(s, "strict_chars") {
            PresetPrompt::StrictChars
        } else {
            PresetPrompt::Standard
        }
    }

    /// The id.
    pub fn id(&self) -> (s: &'static str)
        ensures
            s@ == preset_id(*self),
    {
        match self {
            PresetPrompt::Minimal => "minimal",
            PresetPrompt::Standard => "standard",
            PresetPrompt::StrictChars => "strict_chars",
        }
    }

    /// The display name.
    pub fn name(&self) -> (s: &'static str)
        ensures
            s@ == preset_name(*self),
    {
        match self {
            PresetPrompt::Minimal => "极简",
            PresetPrompt::Standard => "标准",
            PresetPrompt::StrictChars => "严格字数",
        }
    }

    /// The system prompt.
    pub fn system(&self) -> (s: &'static str)
        ensures
            s@ == preset_system(*self),
    {
        match self {
            PresetPrompt::Minimal => MINIMAL_SYSTEM,
            PresetPrompt::Standard => DEFAULT_SYSTEM,
            PresetPrompt::StrictChars => STRICT_CHARS_SYSTEM,
        }
    }

    /// The user template.
    pub fn user_template(&self) -> (s: &'static str)
        ensures
            s@ == preset_user_template(*self),
    {
        match self {
            PresetPrompt::Minimal => MINIMAL_USER_TEMPLATE,
            PresetPrompt::Standard => DEFAULT_USER_TEMPLATE,
            PresetPrompt::StrictChars => STRICT_CHARS_USER_TEMPLATE,
        }
    }
}

/// The messages for a preset: custom prompts win over the preset; the system
/// prompt gets `{target}` and `{orig}`, the user template `{text}`, `{target}`,
/// `{orig}` and `{cut}`, in that order.
pub open spec fn messages_preset(
    text: Seq<char>,
    target: nat,
    preset: PresetPrompt,
    custom_system: Option<Seq<char>>,
    custom_user: Option<Seq<char>>,
    cut: nat,
) -> (Seq<char>, Seq<char>) {
    let sys_raw = choose_custom(custom_system, preset_system(preset));
    let tpl = choose_custom(custom_user, preset_user_template(preset));
    let system = replace_all(
        replace_all(sys_raw, "{target}"@, decimal(target)),
        "{orig}"@,
        decimal(text.len()),
    );
    (system, fill_user(tpl, text, target, cut))
}

/// Builds the (system, user) messages from a preset; `cut_pct` is the
/// percentage to cut, substituted for `{cut}` in a custom user template.
pub fn build_compress_messages_preset(
    text: &str,
    target_chars: usize,
    preset: PresetPrompt,
    custom_system: Option<&str>,
    custom_user_template: Option<&str>,
    cut_pct: u32,
) -> (r: (String, String))
    ensures
        (r.0@, r.1@) == messages_preset(
            text@,
            target_chars as nat,
            preset,
            opt_view(custom_system),
            opt_view(custom_user_template),
            cut_pct as nat,
        ),
{
    placeholder_lemmas();
    let tv = to_chars(text);
    let sys_raw = choose_custom_exec(custom_system, preset.system());
    let tpl = choose_custom_exec(custom_user_template, preset.user_template());
    let target = decimal_exec(target_chars);
    let orig = decimal_exec(tv.len());
    let s1 = crate::text::replace_exec(&sys_raw, &to_chars("{target}"), &target);
    let system = crate::text::replace_exec(&s1, &to_chars("{orig}"), &orig);
    let user = fill_user_exec(&tpl, text, target_chars, cut_pct);
    (from_chars(&system), from_chars(&user))
}

} // verus!
