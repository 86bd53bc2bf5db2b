//! Chat messages, and the text a template puts in a turn.
use vstd::prelude::*;
use vstd::string::StringExecFns;

verus! {

/// What a message says.
#[derive(Clone, Debug)]
pub enum MessageContent {
    Text(String),
}

/// One message of a conversation.
#[derive(Clone, Debug)]
pub struct ChatMessage {
    pub role: String,
    pub content: Option<MessageContent>,
    /// Past tool calls of an assistant message, each as its JSON object.
    pub tool_calls: Option<Vec<String>>,
    /// The call a tool message answers.
    pub tool_call_id: Option<String>,
}

/// The marker text of tool calls, one after the other.
pub open spec fn calls_text(calls: Seq<String>) -> Seq<char>
    decreases calls.len(),
{
    if calls.len() == 0 {
        Seq::empty()
    } else {
        calls_text(calls.drop_last()) + "<tool_call>"@ + calls.last()@ + "</tool_call>"@
    }
}

impl ChatMessage {
    /// The message's own text.
    pub open spec fn said(&self) -> Seq<char> {
        match self.content {
            Some(MessageContent::Text(t)) => t@,
            None => Seq::empty(),
        }
    }

    /// The message's text, with past tool calls as the marker text a model
    /// is asked to produce for a new one.
    pub open spec fn rendered(&self) -> Seq<char> {
        self.said() + match self.tool_calls {
            Some(calls) => calls_text(calls@),
            None => Seq::empty(),
        }
    }

    /// A plain text message.
    pub fn text(role: &str, content: &str) -> (m: ChatMessage)
        ensures
            m.role@ == role@,
            m.content is Some,
            m.said() == content@,
            m.tool_calls is None,
            m.tool_call_id is None,
    {
        ChatMessage {
            role: role.to_owned(),
            content: Some(MessageContent::Text(content.to_owned())),
            tool_calls: None,
            tool_call_id: None,
        }
    }

    /// The text a template puts in this message's turn.
    pub fn rendered_content(&self) -> (s: String)
        ensures
            s@ == self.rendered(),
    {
        let mut s: String = match &self.content {
            Some(MessageContent::Text(t)) => t.as_str().to_owned(),
            None => String::new(),
        };
        let ghost said = s@;
        if let Some(calls) = &self.tool_calls {
            assert(calls@.take(0) =~= Seq::empty());
            assert(s@ =~= said + calls_text(calls@.take(0)));
            for k in 0usize..calls.len()
                invariant
                    s@ == said + calls_text(calls@.take(k as int)),
            {
                proof {
                    assert(calls@.take(k + 1).drop_last() =~= calls@.take(k as int));
                    assert(calls@.take(k + 1).last() == calls@[k as int]);
                }
                s.append("<tool_call>");
                s.append(calls[k].as_str());
                s.append("</tool_call>");
                assert(s@ =~= said + calls_text(calls@.take(k + 1)));
            }
            assert(calls@.take(calls@.len() as int) =~= calls@);
        } else {
            assert(said + Seq::<char>::empty() =~= said);
        }
        s
    }
}

/// A message is rendered as its own text, and behind it each past tool call
/// between its markers, in order: one call more adds that call and changes
/// nothing before it.
pub proof fn law_a_message_is_its_text_and_its_calls(m: ChatMessage, n: ChatMessage, call: String)
    ensures
        m.tool_calls is None ==> m.rendered() == (match m.content {
            Some(MessageContent::Text(t)) => t@,
            None => Seq::empty(),
        }),
        m.tool_calls matches Some(calls) && calls@.len() == 0 ==> m.rendered() == (match m.content {
            Some(MessageContent::Text(t)) => t@,
            None => Seq::empty(),
        }),
        m.tool_calls matches Some(calls) && n.tool_calls matches Some(more) && more@ == calls@.push(call) && n.content
            == m.content ==> n.rendered() == m.rendered() + "<tool_call>"@ + call@ + "</tool_call>"@,
{
    if let (Some(calls), Some(more)) = (m.tool_calls, n.tool_calls) {
        if more@ == calls@.push(call) && n.content == m.content {
            assert(more@.drop_last() =~= calls@);
            assert(n.rendered() =~= m.rendered() + "<tool_call>"@ + call@ + "</tool_call>"@);
        }
    }
    if m.tool_calls is None {
        assert(m.rendered() =~= m.said());
    }
    if let Some(calls) = m.tool_calls {
        if calls@.len() == 0 {
            assert(m.rendered() =~= m.said());
        }
    }
}

/// A text message says its text under its role, and nothing besides.
pub proof fn law_a_text_message_is_its_text(role: &str, content: &str, m: ChatMessage, s: String)
    requires
        call_ensures(ChatMessage::text, (role, content), m),
        call_ensures(ChatMessage::rendered_content, (&m,), s),
    ensures
        m.role@ == role@,
        s@ == content@,
        m.tool_calls is None,
        m.tool_call_id is None,
{
    assert(m.rendered() =~= content@);
}

} // verus!
