//! The language model: chat completions in the OpenAI style, streamed.
//!
//! Tokens are handed on as they arrive so speech can start before the sentence is finished.

use vstd::prelude::*;
use vstd::string::*;

use crate::text::{
    law_a_trailing_run_is_taken_whole, same, trim_end_matches, without_trailing,
};

verus! {

/// Groq by default: OpenAI-compatible, free to start with, and quick enough to keep the first
/// token inside the latency budget.
pub const DEFAULT_BASE_URL: &'static str = "https://api.groq.com/openai/v1";

/// Short answers, spoken aloud: no markdown, no lists, no emoji.
pub const SYSTEM_PROMPT: &'static str = "You are a voice assistant in a live phone-style conversation. Reply in one or two short sentences. Write plain spoken language: no markdown, no bullet points, no emoji, no stage directions. If you need something clarified, just ask.";

/// A message of the conversation, as the model sees it.
#[derive(Debug)]
pub struct Message {
    pub role: String,
    pub content: String,
}

/// What a message says, and who says it.
pub struct MessageView {
    pub role: Seq<char>,
    pub content: Seq<char>,
}

impl View for Message {
    type V = MessageView;

    open spec fn view(&self) -> MessageView {
        MessageView { role: self.role@, content: self.content@ }
    }
}

impl DeepView for Message {
    type V = MessageView;

    open spec fn deep_view(&self) -> MessageView {
        self@
    }
}

pub open spec fn system_message(content: Seq<char>) -> MessageView {
    MessageView { role: "system"@, content }
}

pub open spec fn user_message(content: Seq<char>) -> MessageView {
    MessageView { role: "user"@, content }
}

pub open spec fn assistant_message(content: Seq<char>) -> MessageView {
    MessageView { role: "assistant"@, content }
}

impl Clone for Message {
    fn clone(&self) -> (m: Self)
        ensures
            m@ == self@,
    {
        Message { role: self.role.clone(), content: self.content.clone() }
    }
}

impl Message {
    pub fn system(content: String) -> (m: Self)
        ensures
            m@ == system_message(content@),
    {
        Message { role: "system".to_owned(), content }
    }

    pub fn user(content: String) -> (m: Self)
        ensures
            m@ == user_message(content@),
    {
        Message { role: "user".to_owned(), content }
    }

    pub fn assistant(content: String) -> (m: Self)
        ensures
            m@ == assistant_message(content@),
    {
        Message { role: "assistant".to_owned(), content }
    }
}

/// A copy of a list of messages.
pub fn copy_messages(messages: &Vec<Message>) -> (r: Vec<Message>)
    ensures
        r.deep_view() == messages.deep_view(),
{
    let mut r: Vec<Message> = Vec::new();
    let mut i: usize = 0;
    while i < messages.len()
        invariant
            i <= messages@.len(),
            r@.len() == i,
            forall|k: int| 0 <= k < i ==> (#[trigger] r@[k])@ == messages@[k]@,
        decreases messages@.len() - i,
    {
        r.push(messages[i].clone());
        i = i + 1;
    }
    assert(r.deep_view() =~= messages.deep_view());
    r
}

/// Where a model is reached, and how it is asked.
#[derive(Debug)]
pub struct Llm {
    pub url: String,
    pub api_key: String,
    pub model: String,
}

impl Clone for Llm {
    fn clone(&self) -> (llm: Self)
        ensures
            llm.url@ == self.url@,
            llm.api_key@ == self.api_key@,
            llm.model@ == self.model@,
    {
        Llm {
            url: self.url.clone(),
            api_key: self.api_key.clone(),
            model: self.model.clone(),
        }
    }
}

/// What is asked of the model: everything said so far, and a reply token by token.
#[derive(Debug)]
pub struct Request {
    pub model: String,
    pub messages: Vec<Message>,
    pub stream: bool,
}

/// The completions endpoint under an API root, whether or not the root ends in slashes.
pub open spec fn completions_url(base_url: Seq<char>) -> Seq<char> {
    without_trailing(base_url, '/') + "/chat/completions"@
}

impl Llm {
    /// `base_url` is an OpenAI-compatible root such as `https://api.openai.com/v1`.
    pub fn new(base_url: &str, api_key: String, model: String) -> (llm: Self)
        ensures
            llm.url@ == completions_url(base_url@),
            llm.api_key@ == api_key@,
            llm.model@ == model@,
    {
        let mut url = trim_end_matches(base_url, '/').to_owned();
        url.append("/chat/completions");
        Llm { url, api_key, model }
    }

    /// The request for a streamed reply to `messages`.
    pub fn request(&self, messages: &Vec<Message>) -> (r: Request)
        ensures
            r.model@ == self.model@,
            r.messages.deep_view() == messages.deep_view(),
            r.stream,
    {
        Request { model: self.model.clone(), messages: copy_messages(messages), stream: true }
    }
}

/// A trailing slash is a natural thing to paste; it does not double up, and neither do more.
pub proof fn law_trailing_slashes_do_not_matter(base_url: Seq<char>)
    ensures
        completions_url(base_url.push('/')) == completions_url(base_url),
        without_trailing(base_url, '/').len() > 0 ==> without_trailing(base_url, '/').last() != '/',
    decreases base_url.len(),
{
    assert(base_url.push('/').drop_last() =~= base_url);
    if base_url.len() > 0 && base_url.last() == '/' {
        law_trailing_slashes_do_not_matter(base_url.drop_last());
    }
}

/// Surfaces the API's own message: a wrong model name or an unfunded key says so here.
pub fn check_status(success: bool, status: &str, body: &str) -> (r: Result<(), String>)
    ensures
        match r {
            Ok(_) => success,
            Err(e) => !success && e@ == "OpenAI returned "@ + status@ + ": "@ + body@,
        },
{
    if success {
        Ok(())
    } else {
        let mut e = "OpenAI returned ".to_owned();
        e.append(status);
        e.append(": ");
        e.append(body);
        Err(e)
    }
}

/// One piece of a streamed reply.
#[derive(Debug)]
pub struct Chunk {
    pub choices: Vec<Choice>,
}

#[derive(Debug)]
pub struct Choice {
    pub delta: Delta,
}

#[derive(Debug)]
pub struct Delta {
    pub content: Option<String>,
}

/// The text a chunk carries: the first choice's, unless there is none or it is empty.
pub open spec fn token_of(chunk: Chunk) -> Option<Seq<char>> {
    if chunk.choices@.len() == 0 {
        None
    } else {
        match chunk.choices@[0].delta.content {
            Some(content) => if content@.len() == 0 {
                None
            } else {
                Some(content@)
            },
            None => None,
        }
    }
}

impl Chunk {
    /// The text this chunk adds to the reply. The first chunk of a reply carries only the role,
    /// and the last only a finish reason.
    pub fn token(self) -> (r: Option<String>)
        ensures
            crate::text::opt_text(r) == token_of(self),
    {
        let mut choices = self.choices;
        if choices.len() == 0 {
            return None;
        }
        let first = choices.swap_remove(0);
        match first.delta.content {
            Some(content) => if content.as_str().is_empty() {
                None
            } else {
                Some(content)
            },
            None => None,
        }
    }
}

/// What the connection brings while a reply streams in.
#[derive(Debug)]
pub enum StreamEvent {
    /// A server-sent event: its text, and the chunk it holds where it is one.
    Data { data: String, chunk: Option<Chunk> },
    /// The stream broke.
    Failed(String),
}

/// What an event of the stream means for the reply: a token, the end of it, or nothing.
pub open spec fn item_of(event: StreamEvent) -> Option<Result<Seq<char>, Seq<char>>> {
    match event {
        StreamEvent::Data { data, chunk } => if data@ == "[DONE]"@ {
            None
        } else {
            match chunk {
                Some(chunk) => match token_of(chunk) {
                    Some(token) => Some(Ok(token)),
                    None => None,
                },
                None => None,
            }
        },
        StreamEvent::Failed(error) => Some(Err("OpenAI stream failed: "@ + error@)),
    }
}

/// The token an event brings, or the failure. Events that say nothing are passed over: the
/// closing mark, chunks without text, and data that is no chunk.
pub fn stream_item(event: StreamEvent) -> (r: Option<Result<String, String>>)
    ensures
        match r {
            Some(Ok(token)) => item_of(event) == Some(Ok::<Seq<char>, Seq<char>>(token@)),
            Some(Err(error)) => item_of(event) == Some(Err::<Seq<char>, Seq<char>>(error@)),
            None => item_of(event) is None,
        },
{
    match event {
        StreamEvent::Data { data, chunk } => {
            if same(data.as_str(), "[DONE]") {
                return None;
            }
            match chunk {
                Some(chunk) => match chunk.token() {
                    Some(token) => Some(Ok(token)),
                    None => None,
                },
                None => None,
            }
        },
        StreamEvent::Failed(error) => {
            let mut e = "OpenAI stream failed: ".to_owned();
            e.append(error.as_str());
            Some(Err(e))
        },
    }
}

// ---- what holds of every request and every stream

/// What the first choice of a chunk says, as it stands.
pub open spec fn first_content(chunk: Chunk) -> Seq<char> {
    if chunk.choices@.len() > 0 && chunk.choices@[0].delta.content is Some {
        chunk.choices@[0].delta.content->0@
    } else {
        seq![]
    }
}

/// What an optional token adds to a reply.
pub open spec fn added(token: Option<String>) -> Seq<char> {
    match token {
        Some(t) => t@,
        None => seq![],
    }
}

/// The tokens of a run of chunks, run together, are what their first choices say, run together,
/// character for character; and a chunk that says nothing brings no token.
pub proof fn law_tokens_are_what_the_chunks_say(chunks: Seq<Chunk>, tokens: Seq<Option<String>>)
    requires
        chunks.len() == tokens.len(),
        forall|i: int|
            0 <= i < chunks.len() ==> call_ensures(
                Chunk::token,
                (#[trigger] chunks[i],),
                tokens[i],
            ),
    ensures
        tokens.map_values(|t: Option<String>| added(t)).flatten() == chunks.map_values(
            |c: Chunk| first_content(c),
        ).flatten(),
        forall|i: int|
            0 <= i < tokens.len() ==> (#[trigger] tokens[i] is None <==> first_content(
                chunks[i],
            ).len() == 0),
{
    let said = tokens.map_values(|t: Option<String>| added(t));
    let written = chunks.map_values(|c: Chunk| first_content(c));
    assert forall|i: int| 0 <= i < chunks.len() implies said[i] == written[i] && (tokens[i] is None
        <==> first_content(chunks[i]).len() == 0) by {
        assert(call_ensures(Chunk::token, (chunks[i],), tokens[i]));
        assert(added(tokens[i]) =~= first_content(chunks[i]));
    }
    assert(said =~= written);
}

/// What an event of a stream says for the reply: the words of its chunk, unless it is the closing
/// mark or holds no chunk.
pub open spec fn event_content(event: StreamEvent) -> Seq<char> {
    match event {
        StreamEvent::Data { data, chunk: Some(chunk) } => if data@ == "[DONE]"@ {
            seq![]
        } else {
            first_content(chunk)
        },
        _ => seq![],
    }
}

/// What an item of a stream adds to a reply.
pub open spec fn item_added(item: Option<Result<String, String>>) -> Seq<char> {
    match item {
        Some(Ok(token)) => token@,
        _ => seq![],
    }
}

/// A stream yields what its events say, run together and character for character; an item is a
/// failure exactly where the stream broke, and says why.
pub proof fn law_a_stream_yields_what_its_events_say(
    events: Seq<StreamEvent>,
    items: Seq<Option<Result<String, String>>>,
)
    requires
        events.len() == items.len(),
        forall|i: int|
            0 <= i < events.len() ==> call_ensures(
                stream_item,
                (#[trigger] events[i],),
                items[i],
            ),
    ensures
        items.map_values(|r: Option<Result<String, String>>| item_added(r)).flatten()
            == events.map_values(|e: StreamEvent| event_content(e)).flatten(),
        forall|i: int|
            0 <= i < items.len() ==> match events[i] {
                StreamEvent::Failed(error) => #[trigger] items[i] matches Some(Err(e)) && e@
                    == "OpenAI stream failed: "@ + error@,
                _ => !(items[i] matches Some(Err(_))) && (items[i] is None <==> event_content(
                    events[i],
                ).len() == 0),
            },
{
    let said = items.map_values(|r: Option<Result<String, String>>| item_added(r));
    let written = events.map_values(|e: StreamEvent| event_content(e));
    assert forall|i: int| 0 <= i < events.len() implies said[i] == written[i] && match events[i] {
        StreamEvent::Failed(error) => #[trigger] items[i] matches Some(Err(e)) && e@
            == "OpenAI stream failed: "@ + error@,
        _ => !(items[i] matches Some(Err(_))) && (items[i] is None <==> event_content(
            events[i],
        ).len() == 0),
    } by {
        assert(call_ensures(stream_item, (events[i],), items[i]));
        assert(item_added(items[i]) =~= event_content(events[i]));
    }
    assert(said =~= written);
}

/// A model is asked at its API root without slashes at the end, followed by the completions path,
/// under the key and the name it was given.
pub proof fn law_a_model_is_asked_under_its_root(
    base_url: &str,
    api_key: String,
    model: String,
    llm: Llm,
)
    requires
        call_ensures(Llm::new, (base_url, api_key, model), llm),
    ensures
        base_url@.len() == 0 || base_url@.last() != '/' ==> llm.url@ == base_url@
            + "/chat/completions"@,
        exists|root: Seq<char>|
            #[trigger] root.is_prefix_of(base_url@) && (root.len() == 0 || root.last() != '/') && (
            forall|i: int| root.len() <= i < base_url@.len() ==> base_url@[i] == '/') && llm.url@
                == root + "/chat/completions"@,
        llm.api_key@ == api_key@,
        llm.model@ == model@,
{
    law_a_trailing_run_is_taken_whole(base_url@, '/');
    assert(without_trailing(base_url@, '/').is_prefix_of(base_url@));
}

/// A request names the model, carries every message as it is and in order, and asks for a stream.
pub proof fn law_a_request_carries_everything(llm: Llm, messages: Vec<Message>, r: Request)
    requires
        call_ensures(Llm::request, (&llm, &messages), r),
    ensures
        r.model@ == llm.model@,
        r.stream,
        r.messages@.len() == messages@.len(),
        forall|i: int|
            0 <= i < messages@.len() ==> (#[trigger] r.messages@[i]).role@ == messages@[i].role@
                && r.messages@[i].content@ == messages@[i].content@,
{
    assert(r.messages.deep_view().len() == messages.deep_view().len());
    assert forall|i: int| 0 <= i < messages@.len() implies (#[trigger] r.messages@[i]).role@
        == messages@[i].role@ && r.messages@[i].content@ == messages@[i].content@ by {
        assert(r.messages.deep_view()[i] == messages.deep_view()[i]);
        assert(r.messages.deep_view()[i] == r.messages@[i]@);
        assert(messages.deep_view()[i] == messages@[i]@);
    }
}

/// A message carries its content as it is, under the role that its maker is named for.
pub proof fn law_messages_have_their_role(content: String, s: Message, u: Message, a: Message)
    requires
        call_ensures(Message::system, (content,), s),
        call_ensures(Message::user, (content,), u),
        call_ensures(Message::assistant, (content,), a),
    ensures
        s.role@ == "system"@ && u.role@ == "user"@ && a.role@ == "assistant"@,
        s.content@ == content@ && u.content@ == content@ && a.content@ == content@,
{
}

/// An answer that is no success is an error that says the status and the API's own message.
pub proof fn law_refusals_are_surfaced(success: bool, status: &str, body: &str, r: Result<
    (),
    String,
>)
    requires
        call_ensures(check_status, (success, status, body), r),
    ensures
        r is Ok <==> success,
        r matches Err(e) ==> e@ == "OpenAI returned "@ + status@ + ": "@ + body@,
{
}

} // verus!
