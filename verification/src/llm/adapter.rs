//! Chat messages, responses and model providers, and how messages and
//! replies are laid out for providers that keep the system prompt apart.

use vstd::prelude::*;
use crate::text::{str_eq, lowercase, to_lowercase, ascii_lower};

verus! {

/// Who wrote a message.
#[derive(Debug, Clone, Copy, PartialEq, Eq, Structural)]
pub enum MessageRole {
    /// Sets the context and the assistant's behaviour.
    System,
    /// The end user.
    User,
    /// The model.
    Assistant,
}

impl MessageRole {
    /// The role's name as the chat protocols write it.
    pub fn name(&self) -> (r: &'static str)
        ensures
            r@ == match *self {
                MessageRole::System => "system"@,
                MessageRole::User => "user"@,
                MessageRole::Assistant => "assistant"@,
            },
    {
        match self {
            MessageRole::System => "system",
            MessageRole::User => "user",
            MessageRole::Assistant => "assistant",
        }
    }
}

/// One message of a chat.
#[derive(Debug, Clone)]
pub struct ChatMessage {
    pub role: MessageRole,
    pub content: String,
}

impl ChatMessage {
    /// A message with the given role and content.
    pub fn new(role: MessageRole, content: String) -> (m: ChatMessage)
        ensures
            m.role == role,
            m.content == content,
    {
        ChatMessage { role, content }
    }

    /// A system message.
    pub fn system(content: String) -> (m: ChatMessage)
        ensures
            m.role == MessageRole::System,
            m.content == content,
    {
        ChatMessage::new(MessageRole::System, content)
    }

    /// A user message.
    pub fn user(content: String) -> (m: ChatMessage)
        ensures
            m.role == MessageRole::User,
            m.content == content,
    {
        ChatMessage::new(MessageRole::User, content)
    }

    /// An assistant message.
    pub fn assistant(content: String) -> (m: ChatMessage)
        ensures
            m.role == MessageRole::Assistant,
            m.content == content,
    {
        ChatMessage::new(MessageRole::Assistant, content)
    }
}

/// One of the answers a model gave.
#[derive(Debug, Clone)]
pub struct ChatChoice {
    pub index: u32,
    pub message: ChatMessage,
    pub finish_reason: Option<String>,
}

/// The tokens a call used.
#[derive(Debug, Clone, Copy)]
pub struct TokenUsage {
    pub prompt_tokens: u32,
    pub completion_tokens: u32,
    pub total_tokens: u32,
}

/// A model's reply.
#[derive(Debug, Clone)]
pub struct ChatResponse {
    pub id: String,
    pub model: String,
    pub choices: Vec<ChatChoice>,
    pub usage: Option<TokenUsage>,
}

impl ChatResponse {
    /// The content of the first choice; empty when there is none.
    pub fn content(&self) -> (r: String)
        ensures
            self.choices@.len() > 0 ==> r@ == self.choices@[0].message.content@,
            self.choices@.len() == 0 ==> r@ == Seq::<char>::empty(),
    {
        if self.choices.len() > 0 {
            self.choices[0].message.content.clone()
        } else {
            String::new()
        }
    }
}

/// Who serves the model.
#[derive(Debug, Clone)]
pub enum LlmProvider {
    Mock,
    OpenAi,
    Anthropic,
    AzureOpenAi,
    DeepSeek,
    /// Any other provider, by the name it was given.
    Custom(String),
}

/// The name of a provider: the lowercase name of a known one, the given
/// name of a custom one.
pub open spec fn provider_name(p: LlmProvider) -> Seq<char> {
    match p {
        LlmProvider::Mock => "mock"@,
        LlmProvider::OpenAi => "openai"@,
        LlmProvider::Anthropic => "anthropic"@,
        LlmProvider::AzureOpenAi => "azureopenai"@,
        LlmProvider::DeepSeek => "deepseek"@,
        LlmProvider::Custom(n) => n@,
    }
}

impl LlmProvider {
    /// The provider a name stands for, letter case aside; any other name is
    /// a custom provider of that name, as it was written.
    pub fn from_name(s: &str) -> (p: LlmProvider)
        ensures
            ({
                let l = lowercase(s@);
                if l == "mock"@ {
                    p is Mock
                } else if l == "openai"@ {
                    p is OpenAi
                } else if l == "anthropic"@ {
                    p is Anthropic
                } else if l == "azure"@ || l == "azureopenai"@ {
                    p is AzureOpenAi
                } else if l == "deepseek"@ {
                    p is DeepSeek
                } else {
                    p matches LlmProvider::Custom(n) && n@ == s@
                }
            }),
            forall|k: LlmProvider| !(k is Custom) && #[trigger] provider_name(k) == s@ ==> p == k,
    {
        let lowered = to_lowercase(s);
        proof {
            reveal_strlit("mock");
            reveal_strlit("openai");
            reveal_strlit("anthropic");
            reveal_strlit("azureopenai");
            reveal_strlit("deepseek");
            reveal_strlit("azure");
            assert forall|k: LlmProvider| !(k is Custom) && #[trigger] provider_name(k) == s@ implies lowercase(s@) == s@ by {
                assert(forall|i: int| 0 <= i < s@.len() ==> (#[trigger] s@[i] as u32) < 128);
                assert(s@.map_values(|c: char| ascii_lower(c)) =~= s@);
            }
        }
        let l = lowered.as_str();
        if str_eq(l, "mock") {
            LlmProvider::Mock
        } else if str_eq(l, "openai") {
            LlmProvider::OpenAi
        } else if str_eq(l, "anthropic") {
            LlmProvider::Anthropic
        } else if str_eq(l, "azure") || str_eq(l, "azureopenai") {
            LlmProvider::AzureOpenAi
        } else if str_eq(l, "deepseek") {
            LlmProvider::DeepSeek
        } else {
            LlmProvider::Custom(String::from_str(s))
        }
    }

    /// The provider's name: the lowercase name of a known provider, the
    /// given name of a custom one.
    pub fn name(&self) -> (r: String)
        ensures
            r@ == provider_name(*self),
    {
        match self {
            LlmProvider::Mock => String::from_str("mock"),
            LlmProvider::OpenAi => String::from_str("openai"),
            LlmProvider::Anthropic => String::from_str("anthropic"),
            LlmProvider::AzureOpenAi => String::from_str("azureopenai"),
            LlmProvider::DeepSeek => String::from_str("deepseek"),
            LlmProvider::Custom(n) => n.clone(),
        }
    }
}


/// The role a chat protocol's role name stands for: `system`, `user`, and
/// the assistant for anything else.
pub open spec fn role_of_name(name: Seq<char>) -> MessageRole {
    if name == "system"@ {
        MessageRole::System
    } else if name == "user"@ {
        MessageRole::User
    } else {
        MessageRole::Assistant
    }
}

/// The role a chat protocol's role name stands for.
pub fn role_from_name(name: &str) -> (r: MessageRole)
    ensures
        r == role_of_name(name@),
{
    if str_eq(name, "system") {
        MessageRole::System
    } else if str_eq(name, "user") {
        MessageRole::User
    } else {
        MessageRole::Assistant
    }
}

/// The system prompt of messages for a provider that takes it apart: the
/// system messages' contents, in order, joined by newlines; none without
/// system messages.
pub open spec fn system_prompt_of(ms: Seq<ChatMessage>) -> Option<Seq<char>>
    decreases ms.len(),
{
    if ms.len() == 0 {
        None
    } else {
        let rest = system_prompt_of(ms.drop_last());
        if ms.last().role == MessageRole::System {
            match rest {
                Some(p) => Some(p + "\n"@ + ms.last().content@),
                None => Some(ms.last().content@),
            }
        } else {
            rest
        }
    }
}

/// The other messages, in order, as role names and contents.
pub open spec fn dialogue_of(ms: Seq<ChatMessage>) -> Seq<(Seq<char>, Seq<char>)>
    decreases ms.len(),
{
    if ms.len() == 0 {
        Seq::empty()
    } else {
        let rest = dialogue_of(ms.drop_last());
        match ms.last().role {
            MessageRole::System => rest,
            MessageRole::User => rest.push(("user"@, ms.last().content@)),
            MessageRole::Assistant => rest.push(("assistant"@, ms.last().content@)),
        }
    }
}

/// Splits messages the way Anthropic's API takes them: the system prompt
/// (the system messages joined by newlines), and the user and assistant
/// messages, in order, as role names and contents.
pub fn split_system_prompt(messages: &Vec<ChatMessage>) -> (r: (Option<String>, Vec<(String, String)>))
    ensures
        match r.0 {
            Some(p) => system_prompt_of(messages@) == Some(p@),
            None => system_prompt_of(messages@) is None,
        },
        r.1@.map_values(|e: (String, String)| (e.0@, e.1@)) == dialogue_of(messages@),
{
    let mut system: Option<String> = None;
    let mut dialogue: Vec<(String, String)> = Vec::new();
    let mut i: usize = 0;
    assert(messages@.subrange(0, 0) =~= Seq::<ChatMessage>::empty());
    assert(dialogue@.map_values(|e: (String, String)| (e.0@, e.1@)) =~= Seq::<(Seq<char>, Seq<char>)>::empty());
    while i < messages.len()
        invariant
            i <= messages@.len(),
            match system {
                Some(p) => system_prompt_of(messages@.subrange(0, i as int)) == Some(p@),
                None => system_prompt_of(messages@.subrange(0, i as int)) is None,
            },
            dialogue@.map_values(|e: (String, String)| (e.0@, e.1@)) == dialogue_of(messages@.subrange(0, i as int)),
        decreases messages@.len() - i,
    {
        let ghost pre = messages@.subrange(0, i as int);
        assert(messages@.subrange(0, i as int + 1).drop_last() =~= pre);
        assert(messages@.subrange(0, i as int + 1).last() == messages@[i as int]);
        let m = &messages[i];
        let ghost before = dialogue@;
        match m.role {
            MessageRole::System => {
                system = match system {
                    Some(p) => {
                        let mut q = p;
                        q.append("\n");
                        q.append(m.content.as_str());
                        Some(q)
                    },
                    None => Some(m.content.clone()),
                };
            },
            MessageRole::User => {
                dialogue.push((String::from_str("user"), m.content.clone()));
                assert(dialogue@.map_values(|e: (String, String)| (e.0@, e.1@))
                    =~= before.map_values(|e: (String, String)| (e.0@, e.1@)).push(("user"@, m.content@)));
            },
            MessageRole::Assistant => {
                dialogue.push((String::from_str("assistant"), m.content.clone()));
                assert(dialogue@.map_values(|e: (String, String)| (e.0@, e.1@))
                    =~= before.map_values(|e: (String, String)| (e.0@, e.1@)).push(("assistant"@, m.content@)));
            },
        }
        i = i + 1;
    }
    assert(messages@.subrange(0, i as int) =~= messages@);
    (system, dialogue)
}

/// The text of content blocks: the blocks that have text, in order,
/// joined by newlines.
pub open spec fn joined_blocks(blocks: Seq<Option<String>>) -> Seq<char>
    decreases blocks.len(),
{
    if blocks.len() == 0 {
        Seq::empty()
    } else {
        let rest = joined_blocks(blocks.drop_last());
        match blocks.last() {
            Some(t) => if rest.len() == 0 { t@ } else { rest + "\n"@ + t@ },
            None => rest,
        }
    }
}

/// Joins the text of a reply's content blocks, skipping those without
/// text: a newline goes between texts once some text has been written.
pub fn join_text_blocks(blocks: &Vec<Option<String>>) -> (r: String)
    ensures
        r@ == joined_blocks(blocks@),
{
    let mut r = String::new();
    let mut i: usize = 0;
    assert(blocks@.subrange(0, 0) =~= Seq::<Option<String>>::empty());
    while i < blocks.len()
        invariant
            i <= blocks@.len(),
            r@ == joined_blocks(blocks@.subrange(0, i as int)),
        decreases blocks@.len() - i,
    {
        assert(blocks@.subrange(0, i as int + 1).drop_last() =~= blocks@.subrange(0, i as int));
        assert(blocks@.subrange(0, i as int + 1).last() == blocks@[i as int]);
        match &blocks[i] {
            Some(t) => {
                if r.unicode_len() > 0 {
                    r.append("\n");
                }
                r.append(t.as_str());
            },
            None => {},
        }
        i = i + 1;
    }
    assert(blocks@.subrange(0, i as int) =~= blocks@);
    r
}

/// The usage of a call from its input and output token counts: their sum
/// is the total.
pub fn usage_from_counts(input_tokens: u32, output_tokens: u32) -> (u: TokenUsage)
    requires
        input_tokens + output_tokens <= u32::MAX,
    ensures
        u.prompt_tokens == input_tokens,
        u.completion_tokens == output_tokens,
        u.total_tokens == input_tokens + output_tokens,
{
    TokenUsage { prompt_tokens: input_tokens, completion_tokens: output_tokens, total_tokens: input_tokens + output_tokens }
}

} // verus!
