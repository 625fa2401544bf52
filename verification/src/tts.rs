//! Text to speech: what is sent to Murf's streaming API, and how its answers become audio.
//!
//! Sentences go up as they are produced by the language model; audio comes back as base64
//! chunks, which are sliced into the 20 ms frames the pacer expects. Murf can render at
//! 48 kHz, so nothing is resampled.

use base64::Engine;
use vstd::prelude::*;
use vstd::string::*;

use crate::audio::{
    bytes_of, law_bytes_survive_their_samples, sample, sample_of, samples_of, Frame, FRAME_SAMPLES,
};
use crate::text::{contains_char, opt_text, same};

verus! {

pub const DEFAULT_URL: &'static str = "wss://global.api.murf.ai/v1/speech/stream-input";

pub const DEFAULT_VOICE: &'static str = "en-US-natalie";

/// Bytes in one frame.
pub const FRAME_BYTES: usize = 1_920;

/// Bytes in a WAV header.
pub const WAV_HEADER: usize = 44;

// ---- what is asked of the voice

/// A sentence to speak, and the turn it belongs to.
#[derive(Debug)]
pub struct Speech {
    pub text: String,
    /// The service tracks a turn by context; a new turn gets a new id.
    pub context_id: String,
    /// Last sentence of this turn.
    pub end: bool,
}

/// What the agent asks of the voice.
#[derive(Debug)]
pub enum Command {
    Speak(Speech),
    /// The caller interrupted: stop this turn. The service cancels anything not yet synthesised,
    /// and audio already in flight is ignored until the next turn starts.
    Clear { context_id: String },
}

/// A command, with its texts as characters.
pub enum CommandView {
    Speak { text: Seq<char>, context_id: Seq<char>, end: bool },
    Clear { context_id: Seq<char> },
}

impl View for Command {
    type V = CommandView;

    open spec fn view(&self) -> CommandView {
        match *self {
            Command::Speak(s) => CommandView::Speak {
                text: s.text@,
                context_id: s.context_id@,
                end: s.end,
            },
            Command::Clear { context_id } => CommandView::Clear { context_id: context_id@ },
        }
    }
}

impl Clone for Speech {
    fn clone(&self) -> (s: Self)
        ensures
            s.text@ == self.text@,
            s.context_id@ == self.context_id@,
            s.end == self.end,
    {
        Speech {
            text: self.text.clone(),
            context_id: self.context_id.clone(),
            end: self.end,
        }
    }
}

impl Clone for Command {
    fn clone(&self) -> (c: Self)
        ensures
            c@ == self@,
    {
        match self {
            Command::Speak(speech) => Command::Speak(speech.clone()),
            Command::Clear { context_id } => Command::Clear { context_id: context_id.clone() },
        }
    }
}

impl DeepView for Command {
    type V = CommandView;

    open spec fn deep_view(&self) -> CommandView {
        self@
    }
}

// ---- what is sent to the service

/// The voice to use, for the whole connection or for one context.
#[derive(Debug)]
pub struct VoiceConfig {
    pub voice_id: String,
    pub style: String,
    pub rate: i32,
    pub pitch: i32,
    pub variation: i32,
    pub context_id: Option<String>,
}

/// A message to the service.
#[derive(Debug)]
pub enum VoiceMessage {
    Config(VoiceConfig),
    Text { text: String, context_id: String, end: bool },
    Clear { context_id: String },
}

/// A message, with its texts as characters.
pub enum VoiceMessageView {
    Config {
        voice_id: Seq<char>,
        style: Seq<char>,
        rate: int,
        pitch: int,
        variation: int,
        context: Option<Seq<char>>,
    },
    Text { text: Seq<char>, context_id: Seq<char>, end: bool },
    Clear { context_id: Seq<char> },
}

impl View for VoiceConfig {
    type V = VoiceMessageView;

    open spec fn view(&self) -> VoiceMessageView {
        VoiceMessageView::Config {
            voice_id: self.voice_id@,
            style: self.style@,
            rate: self.rate as int,
            pitch: self.pitch as int,
            variation: self.variation as int,
            context: opt_text(self.context_id),
        }
    }
}

impl View for VoiceMessage {
    type V = VoiceMessageView;

    open spec fn view(&self) -> VoiceMessageView {
        match *self {
            VoiceMessage::Config(config) => config@,
            VoiceMessage::Text { text, context_id, end } => VoiceMessageView::Text {
                text: text@,
                context_id: context_id@,
                end,
            },
            VoiceMessage::Clear { context_id } => VoiceMessageView::Clear {
                context_id: context_id@,
            },
        }
    }
}

impl DeepView for VoiceMessage {
    type V = VoiceMessageView;

    open spec fn deep_view(&self) -> VoiceMessageView {
        self@
    }
}

/// The configuration that sets `voice`, for one context or for all.
pub open spec fn config_view(voice: Seq<char>, context: Option<Seq<char>>) -> VoiceMessageView {
    VoiceMessageView::Config {
        voice_id: voice,
        style: "Conversational"@,
        rate: 0,
        pitch: 0,
        variation: 1,
        context,
    }
}

/// The voice configuration message, optionally initialising a context with it.
pub fn voice_config(voice: &str, context_id: Option<String>) -> (config: VoiceConfig)
    ensures
        config@ == config_view(voice@, opt_text(context_id)),
{
    VoiceConfig {
        voice_id: voice.to_owned(),
        style: "Conversational".to_owned(),
        rate: 0,
        pitch: 0,
        variation: 1,
        context_id,
    }
}

/// Where a stream is opened: the endpoint, the key, and the audio format wanted.
pub fn stream_url(url: &str, api_key: &str) -> (r: String)
    ensures
        r@ == url@ + (if url@.contains('?') {
            "&"@
        } else {
            "?"@
        }) + "api-key="@ + api_key@ + "&sample_rate=48000&channel_type=MONO&format=PCM"@,
{
    let mut r = url.to_owned();
    if contains_char(url, '?') {
        r.append("&");
    } else {
        r.append("?");
    }
    r.append("api-key=");
    r.append(api_key);
    r.append("&sample_rate=48000&channel_type=MONO&format=PCM");
    r
}

// ---- audio chunks into frames

/// What is left over of the audio so far, and whether a header was looked for.
pub struct PcmView {
    pub remainder: Seq<u8>,
    pub header_checked: bool,
}

/// Whether a chunk starts with a whole WAV header.
pub open spec fn has_wav_header(chunk: Seq<u8>) -> bool {
    &&& chunk.len() >= WAV_HEADER
    &&& chunk[0] == 0x52
    &&& chunk[1] == 0x49
    &&& chunk[2] == 0x46
    &&& chunk[3] == 0x46
}

/// The audio in a chunk: the first chunk can carry a WAV header even when PCM was requested.
pub open spec fn audio_in(pcm: PcmView, chunk: Seq<u8>) -> Seq<u8> {
    if !pcm.header_checked && has_wav_header(chunk) {
        chunk.skip(WAV_HEADER as int)
    } else {
        chunk
    }
}

/// How many whole frames a run of audio bytes holds.
pub open spec fn whole_frames(audio: Seq<u8>) -> nat {
    audio.len() / FRAME_BYTES as nat
}

/// The whole frames in a run of audio bytes.
pub open spec fn frames_in(audio: Seq<u8>) -> Seq<Seq<i16>> {
    Seq::new(
        whole_frames(audio),
        |i: int| samples_of(audio.subrange(i * FRAME_BYTES, (i + 1) * FRAME_BYTES)),
    )
}

/// The bytes after the last whole frame.
pub open spec fn left_over(audio: Seq<u8>) -> Seq<u8> {
    audio.skip(whole_frames(audio) * FRAME_BYTES)
}

/// What is left over after a chunk.
pub open spec fn after_chunk(pcm: PcmView, chunk: Seq<u8>) -> PcmView {
    PcmView {
        remainder: left_over(pcm.remainder + audio_in(pcm, chunk)),
        header_checked: true,
    }
}

/// The views of a list of frames.
pub open spec fn frame_views(frames: Seq<Frame>) -> Seq<Seq<i16>> {
    frames.map_values(|f: Frame| f@)
}

/// Turns arbitrarily sized PCM chunks into whole 20 ms frames.
#[derive(Debug)]
pub struct PcmFrames {
    /// Bytes left over from the previous chunk.
    pub remainder: Vec<u8>,
    pub header_checked: bool,
}

impl View for PcmFrames {
    type V = PcmView;

    open spec fn view(&self) -> PcmView {
        PcmView { remainder: self.remainder@, header_checked: self.header_checked }
    }
}

impl Default for PcmFrames {
    fn default() -> (p: Self)
        ensures
            p@ == (PcmView { remainder: seq![], header_checked: false }),
    {
        PcmFrames { remainder: Vec::new(), header_checked: false }
    }
}

fn frame_at(audio: &Vec<u8>, index: usize) -> (frame: Frame)
    requires
        index < whole_frames(audio@),
    ensures
        frame@ == frames_in(audio@)[index as int],
{
    let mut frame: Frame = Vec::new();
    let len = audio.len();
    assert(index * FRAME_BYTES + FRAME_BYTES <= len);
    let base = index * FRAME_BYTES;
    let ghost bytes = audio@.subrange(index * FRAME_BYTES, (index + 1) * FRAME_BYTES);
    let mut i: usize = 0;
    while i < FRAME_SAMPLES
        invariant
            i <= FRAME_SAMPLES,
            frame@.len() == i,
            base == index * FRAME_BYTES,
            base + FRAME_BYTES <= audio@.len() <= usize::MAX,
            bytes == audio@.subrange(base as int, base + FRAME_BYTES),
            forall|k: int| 0 <= k < i ==> frame@[k] == sample_of(bytes[2 * k], bytes[2 * k + 1]),
        decreases FRAME_SAMPLES - i,
    {
        frame.push(sample(audio[base + 2 * i], audio[base + 2 * i + 1]));
        i = i + 1;
    }
    assert(frame@ =~= samples_of(bytes));
    frame
}

impl PcmFrames {
    /// Takes a chunk, and hands out the frames it completes.
    pub fn push(&mut self, chunk: &[u8]) -> (frames: Vec<Frame>)
        ensures
            frame_views(frames@) == frames_in(old(self)@.remainder + audio_in(old(self)@, chunk@)),
            final(self)@ == after_chunk(old(self)@, chunk@),
    {
        let ghost audio = self@.remainder + audio_in(self@, chunk@);
        let mut start: usize = 0;
        if !self.header_checked {
            self.header_checked = true;
            if chunk.len() >= WAV_HEADER && chunk[0] == 0x52 && chunk[1] == 0x49 && chunk[2] == 0x46
                && chunk[3] == 0x46 {
                start = WAV_HEADER;
            }
        }
        let mut i: usize = start;
        while i < chunk.len()
            invariant
                start <= i <= chunk@.len(),
                self.header_checked,
                self.remainder@ == old(self)@.remainder + chunk@.subrange(start as int, i as int),
            decreases chunk@.len() - i,
        {
            self.remainder.push(chunk[i]);
            i = i + 1;
            assert(self.remainder@ =~= old(self)@.remainder + chunk@.subrange(
                start as int,
                i as int,
            ));
        }
        assert(self.remainder@ =~= audio);

        let whole = self.remainder.len() / FRAME_BYTES;
        let mut frames: Vec<Frame> = Vec::new();
        let mut n: usize = 0;
        while n < whole
            invariant
                n <= whole,
                self.header_checked,
                self.remainder@ == audio,
                whole == whole_frames(audio),
                frames@.len() == n,
                forall|k: int| 0 <= k < n ==> (#[trigger] frames@[k])@ == frames_in(audio)[k],
            decreases whole - n,
        {
            frames.push(frame_at(&self.remainder, n));
            n = n + 1;
        }
        assert(frame_views(frames@) =~= frames_in(audio));
        let rest = self.remainder.split_off(whole * FRAME_BYTES);
        assert(rest@ =~= left_over(audio));
        self.remainder = rest;
        frames
    }
}

/// How the audio is cut into chunks does not matter: two chunks give the frames, and leave the
/// bytes, that one chunk with both would.
pub proof fn law_chunk_borders_do_not_matter(a: Seq<u8>, b: Seq<u8>)
    ensures
        frames_in(a + b) == frames_in(a) + frames_in(left_over(a) + b),
        left_over(a + b) == left_over(left_over(a) + b),
{
    let n = whole_frames(a);
    let rest = left_over(a) + b;
    assert(rest =~= (a + b).skip(n * FRAME_BYTES));
    assert(whole_frames(a + b) == n + whole_frames(rest));
    assert forall|i: int| 0 <= i < whole_frames(a + b) implies frames_in(a + b)[i] == (frames_in(a)
        + frames_in(rest))[i] by {
        if i < n {
            assert((a + b).subrange(i * FRAME_BYTES, (i + 1) * FRAME_BYTES) =~= a.subrange(
                i * FRAME_BYTES,
                (i + 1) * FRAME_BYTES,
            ));
        } else {
            let k = i - n;
            assert((a + b).subrange(i * FRAME_BYTES, (i + 1) * FRAME_BYTES) =~= rest.subrange(
                k * FRAME_BYTES,
                (k + 1) * FRAME_BYTES,
            ));
        }
    }
    assert(frames_in(a + b) =~= frames_in(a) + frames_in(rest));
    assert(left_over(a + b) =~= left_over(rest));
}

/// What is left over after a run of chunks.
pub open spec fn after_chunks(pcm: PcmView, chunks: Seq<Seq<u8>>) -> PcmView
    decreases chunks.len(),
{
    if chunks.len() == 0 {
        pcm
    } else {
        after_chunk(after_chunks(pcm, chunks.drop_last()), chunks.last())
    }
}

/// The frames that a run of chunks completes.
pub open spec fn frames_over(pcm: PcmView, chunks: Seq<Seq<u8>>) -> Seq<Seq<i16>>
    decreases chunks.len(),
{
    if chunks.len() == 0 {
        seq![]
    } else {
        let before = after_chunks(pcm, chunks.drop_last());
        frames_over(pcm, chunks.drop_last()) + frames_in(
            before.remainder + audio_in(before, chunks.last()),
        )
    }
}

/// All the audio in a run of chunks, without the header that the first may carry.
pub open spec fn audio_over(pcm: PcmView, chunks: Seq<Seq<u8>>) -> Seq<u8>
    decreases chunks.len(),
{
    if chunks.len() == 0 {
        seq![]
    } else {
        let before = chunks.drop_last();
        audio_over(pcm, before) + audio_in(after_chunks(pcm, before), chunks.last())
    }
}

/// However a stream is cut into chunks, its frames are those of the audio in one piece, and so
/// are the bytes left over.
pub proof fn law_any_chunks_give_the_same_frames(pcm: PcmView, chunks: Seq<Seq<u8>>)
    requires
        pcm.remainder.len() < FRAME_BYTES,
    ensures
        frames_over(pcm, chunks) == frames_in(pcm.remainder + audio_over(pcm, chunks)),
        after_chunks(pcm, chunks).remainder == left_over(pcm.remainder + audio_over(pcm, chunks)),
    decreases chunks.len(),
{
    if chunks.len() == 0 {
        let all = pcm.remainder + audio_over(pcm, chunks);
        assert(all =~= pcm.remainder);
        assert(whole_frames(all) == 0);
        assert(frames_in(all) =~= seq![]);
        assert(left_over(all) =~= all);
    } else {
        let before = chunks.drop_last();
        law_any_chunks_give_the_same_frames(pcm, before);
        let a = pcm.remainder + audio_over(pcm, before);
        let b = audio_in(after_chunks(pcm, before), chunks.last());
        law_chunk_borders_do_not_matter(a, b);
        assert(pcm.remainder + audio_over(pcm, chunks) =~= a + b);
    }
}

/// What is held back is always less than a frame, every frame is whole, and no byte is lost.
pub proof fn law_frames_are_whole(audio: Seq<u8>)
    ensures
        left_over(audio).len() < FRAME_BYTES,
        forall|i: int|
            0 <= i < frames_in(audio).len() ==> (#[trigger] frames_in(audio)[i]).len()
                == FRAME_SAMPLES,
        frames_in(audio).len() * FRAME_BYTES + left_over(audio).len() == audio.len(),
{
    assert forall|i: int| 0 <= i < frames_in(audio).len() implies (#[trigger] frames_in(
        audio,
    )[i]).len() == FRAME_SAMPLES by {
        assert(audio.subrange(i * FRAME_BYTES, (i + 1) * FRAME_BYTES).len() == FRAME_BYTES);
    }
}

// ---- the voice

/// The state of a voice connection.
pub struct VoiceView {
    pub voice: Seq<char>,
    /// The context the voice was last set for.
    pub configured: Option<Seq<char>>,
    /// Whether audio that still arrives belongs to a cancelled turn.
    pub interrupted: bool,
    pub pcm: PcmView,
}

/// What goes up for a command. A new turn means a new context, which needs the voice set before
/// any text: a context created by text alone falls back to the service's default voice.
pub open spec fn messages_for(voice: VoiceView, command: CommandView) -> Seq<VoiceMessageView> {
    match command {
        CommandView::Speak { text, context_id, end } => {
            let message = VoiceMessageView::Text { text, context_id, end };
            if voice.configured == Some(context_id) {
                seq![message]
            } else {
                seq![config_view(voice.voice, Some(context_id)), message]
            }
        },
        CommandView::Clear { context_id } => seq![VoiceMessageView::Clear { context_id }],
    }
}

/// The state after a command.
pub open spec fn after_command(voice: VoiceView, command: CommandView) -> VoiceView {
    match command {
        CommandView::Speak { context_id, .. } => VoiceView {
            configured: Some(context_id),
            interrupted: false,
            ..voice
        },
        CommandView::Clear { .. } => VoiceView { interrupted: true, ..voice },
    }
}

/// Everything that goes up for a run of commands.
pub open spec fn messages_over(voice: VoiceView, commands: Seq<CommandView>) -> Seq<
    VoiceMessageView,
>
    decreases commands.len(),
{
    if commands.len() == 0 {
        seq![]
    } else {
        let before = commands.drop_last();
        messages_over(voice, before) + messages_for(
            after_commands(voice, before),
            commands.last(),
        )
    }
}

/// The state after a run of commands.
pub open spec fn after_commands(voice: VoiceView, commands: Seq<CommandView>) -> VoiceView
    decreases commands.len(),
{
    if commands.len() == 0 {
        voice
    } else {
        after_command(after_commands(voice, commands.drop_last()), commands.last())
    }
}

/// The context that the last configuration in `messages` sets the voice for, or `start` where
/// there is none.
pub open spec fn context_set_by(
    start: Option<Seq<char>>,
    messages: Seq<VoiceMessageView>,
) -> Option<Seq<char>>
    decreases messages.len(),
{
    if messages.len() == 0 {
        start
    } else {
        match messages.last() {
            VoiceMessageView::Config { context, .. } => context,
            _ => context_set_by(start, messages.drop_last()),
        }
    }
}

/// What an answer of the service holds.
#[derive(Debug)]
pub enum Reply {
    /// It is no JSON, for this reason.
    InvalidJson(String),
    Audio(Vec<u8>),
    /// It has audio that is no base64, for this reason.
    InvalidAudio(String),
    Error(String),
    Warning(String),
    Other,
}

/// An answer, with its contents as sequences.
pub enum ReplyView {
    InvalidJson(Seq<char>),
    Audio(Seq<u8>),
    InvalidAudio(Seq<char>),
    Error(Seq<char>),
    Warning(Seq<char>),
    Other,
}

impl View for Reply {
    type V = ReplyView;

    open spec fn view(&self) -> ReplyView {
        match *self {
            Reply::InvalidJson(cause) => ReplyView::InvalidJson(cause@),
            Reply::Audio(bytes) => ReplyView::Audio(bytes@),
            Reply::InvalidAudio(cause) => ReplyView::InvalidAudio(cause@),
            Reply::Error(e) => ReplyView::Error(e@),
            Reply::Warning(w) => ReplyView::Warning(w@),
            Reply::Other => ReplyView::Other,
        }
    }
}

/// What an answer means for the call.
#[derive(Debug)]
pub enum Heard {
    /// Frames for the speaker, in order. None while a cancelled turn drains.
    Frames(Vec<Frame>),
    /// A warning to log.
    Warning(String),
    /// Nothing to act on.
    Nothing,
}

// ---- the outside crates

/// A parsed JSON value of `serde_json`.
#[verifier::external_type_specification]
#[verifier::external_body]
pub struct ExValue(serde_json::Value);

/// The members of a JSON object that are strings, by name. A value that is no object has none.
pub uninterp spec fn string_members(value: serde_json::Value) -> Map<Seq<char>, Seq<char>>;

/// What `serde_json` makes of a text: the string members of its value, or what it says is wrong
/// where the text is no JSON.
pub uninterp spec fn json_members(text: Seq<char>) -> Result<Map<Seq<char>, Seq<char>>, Seq<char>>;

/// What `base64` makes of a text in the standard alphabet with padding: its bytes, or what it
/// says is wrong where the text is malformed.
pub uninterp spec fn base64_bytes(text: Seq<char>) -> Result<Seq<u8>, Seq<char>>;

/// `serde_json::from_str` into a `Value`, with the text of its error: whether the text is JSON,
/// the string members of its value, and what is wrong with it depend on the text alone.
#[verifier::external_body]
fn parse_json(text: &str) -> (r: Result<serde_json::Value, String>)
    ensures
        match r {
            Ok(value) => json_members(text@) == Ok::<Map<Seq<char>, Seq<char>>, Seq<char>>(
                string_members(value),
            ),
            Err(cause) => json_members(text@) == Err::<Map<Seq<char>, Seq<char>>, Seq<char>>(
                cause@,
            ),
        },
{
    match serde_json::from_str(text) {
        Ok(value) => Ok(value),
        Err(e) => Err(e.to_string()),
    }
}

/// `Value`'s index by a name, then `Value::as_str`: the member of that name where it is a
/// string, and nothing where there is no such member, or it is no string, or the value is no
/// object.
#[verifier::external_body]
fn string_member<'a>(value: &'a serde_json::Value, name: &str) -> (r: Option<&'a str>)
    ensures
        match r {
            Some(s) => string_members(*value).contains_key(name@) && string_members(*value)[name@]
                == s@,
            None => !string_members(*value).contains_key(name@),
        },
{
    value[name].as_str()
}

/// `base64`'s `Engine::decode` with `STANDARD`, with the text of its error: the bytes, or what is
/// wrong, depend on the text alone.
#[verifier::external_body]
fn decode_base64(text: &str) -> (r: Result<Vec<u8>, String>)
    ensures
        match r {
            Ok(bytes) => base64_bytes(text@) == Ok::<Seq<u8>, Seq<char>>(bytes@),
            Err(cause) => base64_bytes(text@) == Err::<Seq<u8>, Seq<char>>(cause@),
        },
{
    match base64::engine::general_purpose::STANDARD.decode(text) {
        Ok(bytes) => Ok(bytes),
        Err(e) => Err(e.to_string()),
    }
}

/// What an answer holds, by its members: audio first, then an error, then a warning. Audio is
/// there as its bytes, or as what is wrong where it is malformed.
pub open spec fn reply_with(
    audio: Option<Result<Seq<u8>, Seq<char>>>,
    error: Option<Seq<char>>,
    warning: Option<Seq<char>>,
) -> ReplyView {
    match (audio, error, warning) {
        (Some(Ok(bytes)), _, _) => ReplyView::Audio(bytes),
        (Some(Err(cause)), _, _) => ReplyView::InvalidAudio(cause),
        (None, Some(e), _) => ReplyView::Error(e),
        (None, None, Some(w)) => ReplyView::Warning(w),
        (None, None, None) => ReplyView::Other,
    }
}

/// What an answer with these members holds.
pub fn pick_reply(
    audio: Option<Result<Vec<u8>, String>>,
    error: Option<String>,
    warning: Option<String>,
) -> (reply: Reply)
    ensures
        reply@ == reply_with(
            match audio {
                Some(Ok(bytes)) => Some(Ok(bytes@)),
                Some(Err(cause)) => Some(Err(cause@)),
                None => None,
            },
            opt_text(error),
            opt_text(warning),
        ),
{
    match audio {
        Some(Ok(bytes)) => Reply::Audio(bytes),
        Some(Err(cause)) => Reply::InvalidAudio(cause),
        None => match error {
            Some(e) => Reply::Error(e),
            None => match warning {
                Some(w) => Reply::Warning(w),
                None => Reply::Other,
            },
        },
    }
}

/// A member of an answer, where it has one of that name.
pub open spec fn member(members: Map<Seq<char>, Seq<char>>, name: Seq<char>) -> Option<Seq<char>> {
    if members.contains_key(name) {
        Some(members[name])
    } else {
        None
    }
}

/// What an answer holds, as it arrives.
pub open spec fn reply_of(text: Seq<char>) -> ReplyView {
    match json_members(text) {
        Err(cause) => ReplyView::InvalidJson(cause),
        Ok(members) => reply_with(
            match member(members, "audio"@) {
                Some(chunk) => Some(base64_bytes(chunk)),
                None => None,
            },
            member(members, "error"@),
            member(members, "warning"@),
        ),
    }
}

/// What an answer of the service holds.
pub fn read_reply(text: &str) -> (reply: Reply)
    ensures
        reply@ == reply_of(text@),
{
    let value = match parse_json(text) {
        Ok(value) => value,
        Err(cause) => return Reply::InvalidJson(cause),
    };
    let audio = match string_member(&value, "audio") {
        Some(chunk) => Some(decode_base64(chunk)),
        None => None,
    };
    let error = match string_member(&value, "error") {
        Some(error) => Some(error.to_owned()),
        None => None,
    };
    let warning = match string_member(&value, "warning") {
        Some(warning) => Some(warning.to_owned()),
        None => None,
    };
    pick_reply(audio, error, warning)
}

/// What is wrong, where an answer ends the stream: what went wrong, and then why.
pub open spec fn failure_of(reply: ReplyView) -> Option<Seq<char>> {
    match reply {
        ReplyView::InvalidJson(cause) => Some("murf sent invalid JSON: "@ + cause),
        ReplyView::InvalidAudio(cause) => Some("murf sent invalid base64: "@ + cause),
        ReplyView::Error(e) => Some("murf: "@ + e),
        _ => None,
    }
}

/// The frames an answer brings to the speaker. Audio synthesised before an interruption reached
/// the service is not wanted.
pub open spec fn frames_heard(voice: VoiceView, reply: ReplyView) -> Seq<Seq<i16>> {
    match reply {
        ReplyView::Audio(bytes) => if voice.interrupted {
            seq![]
        } else {
            frames_in(voice.pcm.remainder + audio_in(voice.pcm, bytes))
        },
        _ => seq![],
    }
}

/// The state after an answer: all audio passes through the framer, wanted or not, so that what
/// follows it stays aligned.
pub open spec fn after_reply(voice: VoiceView, reply: ReplyView) -> VoiceView {
    match reply {
        ReplyView::Audio(bytes) => VoiceView { pcm: after_chunk(voice.pcm, bytes), ..voice },
        _ => voice,
    }
}

fn prefixed(prefix: &str, text: &str) -> (r: String)
    ensures
        r@ == prefix@ + text@,
{
    let mut r = prefix.to_owned();
    r.append(text);
    r
}

/// A voice connection: what was configured on it, and the audio it brings.
#[derive(Debug)]
pub struct Voice {
    voice: String,
    configured: Option<String>,
    interrupted: bool,
    pcm: PcmFrames,
}

impl View for Voice {
    type V = VoiceView;

    closed spec fn view(&self) -> VoiceView {
        VoiceView {
            voice: self.voice@,
            configured: opt_text(self.configured),
            interrupted: self.interrupted,
            pcm: self.pcm@,
        }
    }
}

impl Voice {
    /// A fresh connection that speaks with `voice`.
    pub fn new(voice: String) -> (v: Self)
        ensures
            v@ == (VoiceView {
                voice: voice@,
                configured: None,
                interrupted: false,
                pcm: PcmView { remainder: seq![], header_checked: false },
            }),
    {
        Voice { voice, configured: None, interrupted: false, pcm: PcmFrames::default() }
    }

    /// The message that sets the voice for the whole connection.
    pub fn opening(&self) -> (config: VoiceConfig)
        ensures
            config@ == config_view(self@.voice, None),
    {
        voice_config(self.voice.as_str(), None)
    }

    /// What to send for a command.
    pub fn command(&mut self, command: Command) -> (messages: Vec<VoiceMessage>)
        ensures
            messages.deep_view() == messages_for(old(self)@, command@),
            final(self)@ == after_command(old(self)@, command@),
    {
        let mut messages: Vec<VoiceMessage> = Vec::new();
        match command {
            Command::Speak(speech) => {
                self.interrupted = false;
                let known = match &self.configured {
                    Some(context) => same(context.as_str(), speech.context_id.as_str()),
                    None => false,
                };
                if !known {
                    messages.push(
                        VoiceMessage::Config(
                            voice_config(self.voice.as_str(), Some(speech.context_id.clone())),
                        ),
                    );
                    self.configured = Some(speech.context_id.clone());
                }
                messages.push(
                    VoiceMessage::Text {
                        text: speech.text,
                        context_id: speech.context_id,
                        end: speech.end,
                    },
                );
            },
            Command::Clear { context_id } => {
                self.interrupted = true;
                messages.push(VoiceMessage::Clear { context_id });
            },
        }
        assert(messages.deep_view() =~= messages_for(old(self)@, command@));
        messages
    }

    /// Takes in an answer that was read: frames for the speaker, something to log, or what ends
    /// the stream.
    pub fn hear(&mut self, reply: Reply) -> (r: Result<Heard, String>)
        ensures
            final(self)@ == after_reply(old(self)@, reply@),
            match r {
                Err(e) => failure_of(reply@) == Some(e@),
                Ok(heard) => {
                    &&& failure_of(reply@) is None
                    &&& match heard {
                        Heard::Frames(frames) => reply@ is Audio && frame_views(frames@)
                            == frames_heard(old(self)@, reply@),
                        Heard::Warning(w) => reply@ matches ReplyView::Warning(text) && w@
                            == "murf: "@ + text,
                        Heard::Nothing => reply@ is Other,
                    }
                },
            },
    {
        match reply {
            Reply::InvalidJson(cause) => Err(prefixed("murf sent invalid JSON: ", cause.as_str())),
            Reply::InvalidAudio(cause) => Err(
                prefixed("murf sent invalid base64: ", cause.as_str()),
            ),
            Reply::Audio(bytes) => {
                let frames = self.pcm.push(bytes.as_slice());
                if self.interrupted {
                    let none: Vec<Frame> = Vec::new();
                    assert(frame_views(none@) =~= seq![]);
                    Ok(Heard::Frames(none))
                } else {
                    Ok(Heard::Frames(frames))
                }
            },
            Reply::Error(error) => Err(prefixed("murf: ", error.as_str())),
            Reply::Warning(warning) => Ok(Heard::Warning(prefixed("murf: ", warning.as_str()))),
            Reply::Other => Ok(Heard::Nothing),
        }
    }

    /// Takes in an answer of the service as it arrives.
    pub fn receive(&mut self, text: &str) -> (r: Result<Heard, String>)
        ensures
            final(self)@ == after_reply(old(self)@, reply_of(text@)),
            match r {
                Err(e) => failure_of(reply_of(text@)) == Some(e@),
                Ok(heard) => {
                    &&& failure_of(reply_of(text@)) is None
                    &&& match heard {
                        Heard::Frames(frames) => reply_of(text@) is Audio && frame_views(frames@)
                            == frames_heard(old(self)@, reply_of(text@)),
                        Heard::Warning(w) => reply_of(text@) matches ReplyView::Warning(warning)
                            && w@ == "murf: "@ + warning,
                        Heard::Nothing => reply_of(text@) is Other,
                    }
                },
            },
    {
        self.hear(read_reply(text))
    }
}

/// Whatever is asked of a voice, no text goes up before the voice was set for its context, by
/// the last configuration before it.
pub proof fn law_text_always_follows_its_voice(voice: VoiceView, commands: Seq<CommandView>, i: int)
    requires
        0 <= i < messages_over(voice, commands).len(),
    ensures
        messages_over(voice, commands)[i] matches VoiceMessageView::Text { context_id, .. }
            ==> context_set_by(voice.configured, messages_over(voice, commands).take(i)) == Some(
            context_id,
        ),
    decreases commands.len(),
{
    let before = commands.drop_last();
    let earlier = messages_over(voice, before);
    let all = messages_over(voice, commands);
    if i < earlier.len() {
        law_text_always_follows_its_voice(voice, before, i);
        assert(all.take(i) =~= earlier.take(i));
    } else {
        lemma_configured_is_what_was_sent(voice, before);
        if i == earlier.len() {
            assert(all.take(i) =~= earlier);
        } else {
            let config = all[earlier.len() as int];
            assert(all.take(i) =~= earlier.push(config));
            assert(earlier.push(config).last() == config);
        }
    }
}

proof fn lemma_configured_is_what_was_sent(voice: VoiceView, commands: Seq<CommandView>)
    ensures
        context_set_by(voice.configured, messages_over(voice, commands)) == after_commands(
            voice,
            commands,
        ).configured,
    decreases commands.len(),
{
    if commands.len() > 0 {
        let before = commands.drop_last();
        lemma_configured_is_what_was_sent(voice, before);
        reveal_with_fuel(context_set_by, 3);
        let earlier = messages_over(voice, before);
        let more = messages_for(after_commands(voice, before), commands.last());
        if more.len() == 1 {
            assert(earlier + more =~= earlier.push(more[0]));
            assert(earlier.push(more[0]).drop_last() =~= earlier);
        } else {
            assert(earlier + more =~= earlier.push(more[0]).push(more[1]));
            assert(earlier.push(more[0]).push(more[1]).drop_last() =~= earlier.push(more[0]));
        }
    }
}

/// Once a turn is cleared, nothing is heard until the next sentence is sent up, whatever
/// arrives; and when it is, the audio is framed as if nothing had been thrown away.
pub proof fn law_a_cleared_turn_is_silent(
    voice: VoiceView,
    context_id: Seq<char>,
    replies: Seq<ReplyView>,
)
    ensures
        ({
            let cleared = after_command(voice, CommandView::Clear { context_id });
            &&& frames_heard_over(cleared, replies) == Seq::<Seq<i16>>::empty()
            &&& after_replies(cleared, replies).interrupted
            &&& after_replies(cleared, replies).pcm == after_replies(voice, replies).pcm
        }),
    decreases replies.len(),
{
    if replies.len() > 0 {
        law_a_cleared_turn_is_silent(voice, context_id, replies.drop_last());
        let cleared = after_command(voice, CommandView::Clear { context_id });
        assert(frames_heard_over(cleared, replies) =~= seq![]);
    }
}

/// The frames that a run of answers brings.
pub open spec fn frames_heard_over(voice: VoiceView, replies: Seq<ReplyView>) -> Seq<Seq<i16>>
    decreases replies.len(),
{
    if replies.len() == 0 {
        seq![]
    } else {
        let before = replies.drop_last();
        frames_heard_over(voice, before) + frames_heard(
            after_replies(voice, before),
            replies.last(),
        )
    }
}

/// The state after a run of answers.
pub open spec fn after_replies(voice: VoiceView, replies: Seq<ReplyView>) -> VoiceView
    decreases replies.len(),
{
    if replies.len() == 0 {
        voice
    } else {
        after_reply(after_replies(voice, replies.drop_last()), replies.last())
    }
}

// ---- what holds of every command and every answer

/// The bytes of a list of frames, one after the other.
pub open spec fn frame_bytes(frames: Seq<Seq<i16>>) -> Seq<u8>
    decreases frames.len(),
{
    if frames.len() == 0 {
        seq![]
    } else {
        frame_bytes(frames.drop_last()) + bytes_of(frames.last())
    }
}

/// Writing out the frames of a run of audio, and then what is left over, gives the audio back byte
/// for byte: framing adds nothing, loses nothing and changes nothing.
pub proof fn law_frames_hold_the_audio(audio: Seq<u8>)
    ensures
        frame_bytes(frames_in(audio)) + left_over(audio) == audio,
        left_over(audio).len() < 1_920,
        forall|i: int|
            0 <= i < frames_in(audio).len() ==> (#[trigger] frames_in(audio)[i]).len() == 960,
{
    law_frames_are_whole(audio);
    let n = whole_frames(audio);
    lemma_first_frames(audio, n);
    assert(frames_in(audio).take(n as int) =~= frames_in(audio));
    assert(audio.take(n * FRAME_BYTES) + audio.skip(n * FRAME_BYTES) =~= audio);
}

proof fn lemma_first_frames(audio: Seq<u8>, n: nat)
    requires
        n <= whole_frames(audio),
    ensures
        frame_bytes(frames_in(audio).take(n as int)) == audio.take(n * FRAME_BYTES),
    decreases n,
{
    let frames = frames_in(audio).take(n as int);
    if n == 0 {
        assert(frames =~= seq![]);
        assert(audio.take(0) =~= seq![]);
    } else {
        lemma_first_frames(audio, (n - 1) as nat);
        assert(frames.drop_last() =~= frames_in(audio).take(n - 1));
        let bytes = audio.subrange((n - 1) * FRAME_BYTES, n * FRAME_BYTES);
        assert(frames.last() == samples_of(bytes));
        law_bytes_survive_their_samples(bytes);
        assert(audio.take((n - 1) * FRAME_BYTES) + bytes =~= audio.take(n * FRAME_BYTES));
    }
}

/// The frames a chunk completes and the bytes left over are, byte for byte, what was left over
/// before and the audio in the chunk. That is all of the chunk, but for 44 bytes that start with
/// `RIFF` at the start of the very first one.
pub proof fn law_a_chunk_is_framed_whole(
    pcm: &mut PcmFrames,
    chunk: &[u8],
    frames: Vec<Frame>,
)
    requires
        call_ensures(PcmFrames::push, (pcm, chunk), frames),
    ensures
        ({
            let header = !old(pcm)@.header_checked && chunk@.len() >= 44 && chunk@.take(4)
                == seq![0x52u8, 0x49u8, 0x46u8, 0x46u8];
            frame_bytes(frame_views(frames@)) + final(pcm)@.remainder == old(pcm)@.remainder + if header {
                chunk@.skip(44)
            } else {
                chunk@
            }
        }),
        final(pcm)@.remainder.len() < 1_920,
        final(pcm)@.header_checked,
        forall|i: int| 0 <= i < frames@.len() ==> (#[trigger] frames@[i])@.len() == 960,
{
    let audio = old(pcm)@.remainder + audio_in(old(pcm)@, chunk@);
    law_frames_hold_the_audio(audio);
    let four = seq![0x52u8, 0x49u8, 0x46u8, 0x46u8];
    if chunk@.len() >= 44 {
        if has_wav_header(chunk@) {
            assert(chunk@.take(4) =~= four);
        } else if chunk@.take(4) == four {
            assert(chunk@[0] == chunk@.take(4)[0] && chunk@[1] == chunk@.take(4)[1] && chunk@[2]
                == chunk@.take(4)[2] && chunk@[3] == chunk@.take(4)[3]);
        }
    }
    assert forall|i: int| 0 <= i < frames@.len() implies (#[trigger] frames@[i])@.len() == 960 by {
        assert(frame_views(frames@)[i] == frames@[i]@);
        assert(frames_in(audio)[i].len() == 960);
    }
}

/// A sentence goes up as it is, in its context and marked as it is, and last of what goes up for
/// it. The voice is set for its context right before it unless it was already, and then only. A
/// clear goes up alone.
pub proof fn law_every_command_goes_up(
    voice: &mut Voice,
    command: Command,
    messages: Vec<VoiceMessage>,
)
    requires
        call_ensures(Voice::command, (voice, command), messages),
    ensures
        match command {
            Command::Speak(speech) => {
                let known = old(voice)@.configured == Some(speech.context_id@);
                &&& messages@.len() == if known {
                    1nat
                } else {
                    2nat
                }
                &&& messages@.last() matches VoiceMessage::Text { text, context_id, end } && text@
                    == speech.text@ && context_id@ == speech.context_id@ && end == speech.end
                &&& !known ==> (messages@[0] matches VoiceMessage::Config(config)
                    && sets_the_voice(config, old(voice)@.voice) && opt_text(config.context_id)
                    == Some(speech.context_id@))
                &&& final(voice)@.configured == Some(speech.context_id@)
                &&& !final(voice)@.interrupted
            },
            Command::Clear { context_id } => {
                &&& messages@.len() == 1
                &&& messages@[0] matches VoiceMessage::Clear { context_id: c } && c@ == context_id@
                &&& final(voice)@.configured == old(voice)@.configured
                &&& final(voice)@.interrupted
            },
        },
        final(voice)@.voice == old(voice)@.voice,
        final(voice)@.pcm == old(voice)@.pcm,
{
    let views = messages.deep_view();
    assert(views.len() == messages@.len());
    assert(views[0] == messages@[0]@);
    assert(views.last() == messages@.last()@);
    if let Command::Speak(speech) = command {
        assert(views.last() == VoiceMessageView::Text {
            text: speech.text@,
            context_id: speech.context_id@,
            end: speech.end,
        });
        assert(messages@.last() is Text) by {
            match messages@.last() {
                VoiceMessage::Config(config) => assert(config@ is Config),
                _ => {},
            }
        }
        if old(voice)@.configured != Some(speech.context_id@) {
            assert(views[0] == config_view(old(voice)@.voice, Some(speech.context_id@)));
            assert(messages@[0] is Config);
        }
    }
}

/// Whether a configuration sets this voice, speaking as it does in a conversation.
pub open spec fn sets_the_voice(config: VoiceConfig, voice: Seq<char>) -> bool {
    &&& config.voice_id@ == voice
    &&& config.style@ == "Conversational"@
    &&& config.rate == 0
    &&& config.pitch == 0
    &&& config.variation == 1
}

/// A connection starts with its voice set for all contexts, and a configuration can set it for
/// one.
pub proof fn law_a_configuration_sets_the_voice(
    voice: Voice,
    opening: VoiceConfig,
    name: &str,
    context_id: Option<String>,
    config: VoiceConfig,
)
    requires
        call_ensures(Voice::opening, (&voice,), opening),
        call_ensures(voice_config, (name, context_id), config),
    ensures
        sets_the_voice(opening, voice@.voice),
        opening.context_id is None,
        sets_the_voice(config, name@),
        opt_text(config.context_id) == opt_text(context_id),
{
}

/// A stream is opened at the endpoint it was given, with the key it was given, for 48 kHz mono
/// PCM; its parameters start with `?`, or go on with `&` where the endpoint has some already.
pub proof fn law_a_stream_is_opened_with_its_key(url: &str, api_key: &str, r: String)
    requires
        call_ensures(stream_url, (url, api_key), r),
    ensures
        (exists|i: int| 0 <= i < url@.len() && #[trigger] url@[i] == '?') ==> r@ == url@ + "&"@
            + "api-key="@ + api_key@ + "&sample_rate=48000&channel_type=MONO&format=PCM"@,
        (forall|i: int| 0 <= i < url@.len() ==> #[trigger] url@[i] != '?') ==> r@ == url@ + "?"@
            + "api-key="@ + api_key@ + "&sample_rate=48000&channel_type=MONO&format=PCM"@,
{
}

/// After any sentence was sent up, the last of its turn or not and whatever came before it, audio
/// brings the speaker every frame it completes. After a clear it brings none. Either way all of it
/// is framed.
pub proof fn law_a_sentence_is_heard_and_a_cleared_turn_is_not(
    voice: &mut Voice,
    command: Command,
    messages: Vec<VoiceMessage>,
    later: &mut Voice,
    bytes: Vec<u8>,
    r: Result<Heard, String>,
    pcm: &mut PcmFrames,
    frames: Vec<Frame>,
)
    requires
        call_ensures(Voice::command, (voice, command), messages),
        old(later)@ == final(voice)@,
        call_ensures(Voice::hear, (later, Reply::Audio(bytes)), r),
        old(pcm)@ == old(voice)@.pcm,
        exists|slice: &[u8]|
            slice@ == bytes@ && #[trigger] call_ensures(PcmFrames::push, (pcm, slice), frames),
    ensures
        r matches Ok(Heard::Frames(heard)) && frame_views(heard@) == if command is Speak {
            frame_views(frames@)
        } else {
            Seq::<Seq<i16>>::empty()
        },
        final(later)@.pcm == final(pcm)@,
{
}

/// Audio is heard unless its turn was cleared, a warning is passed on, an error or an answer that
/// makes no sense ends the stream and says why, and everything else is passed over. Only audio
/// changes what is left over, and nothing changes what the connection is set to.
pub proof fn law_answers_are_taken_for_what_they_are(
    voice: &mut Voice,
    reply: Reply,
    r: Result<Heard, String>,
)
    requires
        call_ensures(Voice::hear, (voice, reply), r),
    ensures
        match reply {
            Reply::Audio(_) => r matches Ok(Heard::Frames(frames)) && (old(voice)@.interrupted
                ==> frames@.len() == 0),
            Reply::Warning(text) => r matches Ok(Heard::Warning(w)) && w@ == "murf: "@ + text@,
            Reply::Other => r matches Ok(Heard::Nothing),
            Reply::Error(text) => r matches Err(e) && e@ == "murf: "@ + text@,
            Reply::InvalidJson(cause) => r matches Err(e) && e@ == "murf sent invalid JSON: "@
                + cause@,
            Reply::InvalidAudio(cause) => r matches Err(e) && e@ == "murf sent invalid base64: "@
                + cause@,
        },
        !(reply is Audio) ==> final(voice)@ == old(voice)@,
        final(voice)@.voice == old(voice)@.voice,
        final(voice)@.configured == old(voice)@.configured,
        final(voice)@.interrupted == old(voice)@.interrupted,
{
    if let Ok(Heard::Frames(frames)) = r {
        assert(frame_views(frames@).len() == frames@.len());
    }
}

/// Audio that a voice brings is heard frame by frame: what was left over before and the audio in
/// the answer are, byte for byte, the frames that are heard and what is left over then.
pub proof fn law_what_is_heard_is_what_was_sent(
    voice: &mut Voice,
    bytes: Vec<u8>,
    r: Result<Heard, String>,
)
    requires
        call_ensures(Voice::hear, (voice, Reply::Audio(bytes)), r),
        !old(voice)@.interrupted,
    ensures
        r matches Ok(Heard::Frames(frames)) && ({
            let header = !old(voice)@.pcm.header_checked && bytes@.len() >= 44 && bytes@.take(4)
                == seq![0x52u8, 0x49u8, 0x46u8, 0x46u8];
            frame_bytes(frame_views(frames@)) + final(voice)@.pcm.remainder
                == old(voice)@.pcm.remainder + if header {
                bytes@.skip(44)
            } else {
                bytes@
            }
        }),
{
    let pcm = old(voice)@.pcm;
    law_frames_hold_the_audio(pcm.remainder + audio_in(pcm, bytes@));
    let four = seq![0x52u8, 0x49u8, 0x46u8, 0x46u8];
    if bytes@.len() >= 44 {
        if has_wav_header(bytes@) {
            assert(bytes@.take(4) =~= four);
        } else if bytes@.take(4) == four {
            assert(bytes@[0] == bytes@.take(4)[0] && bytes@[1] == bytes@.take(4)[1] && bytes@[2]
                == bytes@.take(4)[2] && bytes@[3] == bytes@.take(4)[3]);
        }
    }
}

/// Of what an answer holds, audio counts before an error and an error before a warning, each as it
/// is; without any of them it is none of these.
pub proof fn law_audio_counts_before_errors_and_warnings(
    audio: Option<Result<Vec<u8>, String>>,
    error: Option<String>,
    warning: Option<String>,
    reply: Reply,
)
    requires
        call_ensures(pick_reply, (audio, error, warning), reply),
    ensures
        audio matches Some(Ok(bytes)) ==> (reply matches Reply::Audio(b) && b@ == bytes@),
        audio matches Some(Err(cause)) ==> (reply matches Reply::InvalidAudio(c) && c@ == cause@),
        audio is None && error is Some ==> (reply matches Reply::Error(e) && e@ == error->0@),
        audio is None && error is None && warning is Some ==> (reply matches Reply::Warning(w)
            && w@ == warning->0@),
        audio is None && error is None && warning is None ==> reply is Other,
{
}

/// An answer is read by its members `audio`, `error` and `warning`, in that order; the first that
/// is there says what it is, and its audio is what the base64 in it stands for.
pub proof fn law_an_answer_is_read_by_its_members(text: &str, reply: Reply)
    requires
        call_ensures(read_reply, (text,), reply),
    ensures
        match json_members(text@) {
            Err(cause) => reply matches Reply::InvalidJson(c) && c@ == cause,
            Ok(members) => if members.contains_key("audio"@) {
                match base64_bytes(members["audio"@]) {
                    Ok(bytes) => reply matches Reply::Audio(b) && b@ == bytes,
                    Err(cause) => reply matches Reply::InvalidAudio(c) && c@ == cause,
                }
            } else if members.contains_key("error"@) {
                reply matches Reply::Error(e) && e@ == members["error"@]
            } else if members.contains_key("warning"@) {
                reply matches Reply::Warning(w) && w@ == members["warning"@]
            } else {
                reply is Other
            },
        },
{
}

/// An answer that arrives is heard as one that was read.
pub proof fn law_answers_are_read_and_then_heard(
    voice: &mut Voice,
    text: &str,
    r: Result<Heard, String>,
    same_voice: &mut Voice,
    reply: Reply,
    expected: Result<Heard, String>,
)
    requires
        call_ensures(Voice::receive, (voice, text), r),
        call_ensures(read_reply, (text,), reply),
        old(same_voice)@ == old(voice)@,
        call_ensures(Voice::hear, (same_voice, reply), expected),
    ensures
        final(voice)@ == final(same_voice)@,
        match (r, expected) {
            (Ok(Heard::Frames(a)), Ok(Heard::Frames(b))) => frame_views(a@) == frame_views(b@),
            (Ok(Heard::Warning(a)), Ok(Heard::Warning(b))) => a@ == b@,
            (Ok(Heard::Nothing), Ok(Heard::Nothing)) => true,
            (Err(a), Err(b)) => a@ == b@,
            _ => false,
        },
{
}

} // verus!
