//! Splits a stream of language-model tokens into speakable sentences.
//!
//! Speech starts as soon as the first sentence is complete rather than waiting for the whole
//! reply, which is most of the difference between a snappy agent and a sluggish one.

use vstd::prelude::*;
use vstd::string::*;

use crate::text::{
    all_white, is_white_space, joined, lemma_nothing_is_solid, lemma_trimmed_bounds,
    lemma_trimmed_end_bound, lemma_trimmed_has_solid_ends, lemma_trimmed_to_nothing,
    lemma_trimming_keeps_what_is_solid, opt_text, solid, trim, trim_end, trimmed, trimmed_end,
};

verus! {

/// Flush at a sentence end, or at this many characters if the model rambles on.
pub const MAX_CHARS: usize = 120;

/// The characters that end a sentence.
pub open spec fn is_terminator(c: char) -> bool {
    c == '.' || c == '!' || c == '?' || c == '\n' || c == ':' || c == ';'
}

/// Whether the text so far reads as a finished sentence.
pub open spec fn ends_sentence(pending: Seq<char>) -> bool {
    trimmed_end(pending).len() > 0 && is_terminator(trimmed_end(pending).last())
}

/// Whether nothing can still join on to the last word: "3.5" and "Dr. Who" would split
/// mid-sentence, so a space has to follow.
pub open spec fn settled(token: Seq<char>) -> bool {
    token.len() == 0 || token.last() == ' ' || token.last() == '\n'
}

/// Whether `pending`, which `token` has just completed, is to be spoken now.
pub open spec fn is_ready(pending: Seq<char>, token: Seq<char>) -> bool {
    (ends_sentence(pending) && settled(token)) || pending.len() >= MAX_CHARS
}

/// What is spoken of a text: the text without the white space around it, if anything is left.
pub open spec fn sentence_of(pending: Seq<char>) -> Option<Seq<char>> {
    if trimmed(pending).len() == 0 {
        None
    } else {
        Some(trimmed(pending))
    }
}

/// What a chunker that holds `pending` says when it is given `token`.
pub open spec fn said_on(pending: Seq<char>, token: Seq<char>) -> Option<Seq<char>> {
    if is_ready(pending + token, token) {
        sentence_of(pending + token)
    } else {
        None
    }
}

/// What a chunker that held `pending` holds after it was given `token`.
pub open spec fn held_after(pending: Seq<char>, token: Seq<char>) -> Seq<char> {
    if is_ready(pending + token, token) {
        seq![]
    } else {
        pending + token
    }
}

/// The sentences that a run of tokens brings forth, from a chunker that holds nothing.
pub open spec fn said_over(tokens: Seq<Seq<char>>) -> Seq<Seq<char>>
    decreases tokens.len(),
{
    if tokens.len() == 0 {
        seq![]
    } else {
        let before = tokens.drop_last();
        match said_on(held_over(before), tokens.last()) {
            Some(sentence) => said_over(before).push(sentence),
            None => said_over(before),
        }
    }
}

/// What a chunker holds after a run of tokens, if it held nothing before.
pub open spec fn held_over(tokens: Seq<Seq<char>>) -> Seq<char>
    decreases tokens.len(),
{
    if tokens.len() == 0 {
        seq![]
    } else {
        held_after(held_over(tokens.drop_last()), tokens.last())
    }
}

pub struct Chunker {
    pending: String,
}

impl View for Chunker {
    type V = Seq<char>;

    closed spec fn view(&self) -> Seq<char> {
        self.pending@
    }
}

impl Default for Chunker {
    fn default() -> (c: Self)
        ensures
            c@ == Seq::<char>::empty(),
    {
        Chunker { pending: String::new() }
    }
}

fn terminator(c: char) -> (b: bool)
    ensures
        b == is_terminator(c),
{
    c == '.' || c == '!' || c == '?' || c == '\n' || c == ':' || c == ';'
}

/// The last character of `s`.
fn last_char(s: &str) -> (r: Option<char>)
    ensures
        match r {
            Some(c) => s@.len() > 0 && c == s@.last(),
            None => s@.len() == 0,
        },
{
    let n = s.unicode_len();
    if n == 0 {
        None
    } else {
        Some(s.get_char(n - 1))
    }
}

impl Chunker {
    /// Adds a token, returning a sentence once one is complete.
    pub fn push(&mut self, token: &str) -> (r: Option<String>)
        ensures
            opt_text(r) == said_on(old(self)@, token@),
            final(self)@ == held_after(old(self)@, token@),
    {
        self.pending.append(token);

        let ends = match last_char(trim_end(self.pending.as_str())) {
            Some(c) => terminator(c),
            None => false,
        };
        let settles = match last_char(token) {
            Some(c) => c == ' ' || c == '\n',
            None => true,
        };
        if (ends && settles) || self.pending.as_str().unicode_len() >= MAX_CHARS {
            return self.take();
        }
        None
    }

    /// Whatever is left when the reply ends.
    pub fn flush(&mut self) -> (r: Option<String>)
        ensures
            opt_text(r) == sentence_of(old(self)@),
            final(self)@ == Seq::<char>::empty(),
    {
        self.take()
    }

    fn take(&mut self) -> (r: Option<String>)
        ensures
            opt_text(r) == sentence_of(old(self)@),
            final(self)@ == Seq::<char>::empty(),
    {
        let sentence = trim(self.pending.as_str()).to_owned();
        self.pending = String::new();
        if sentence.as_str().is_empty() {
            None
        } else {
            Some(sentence)
        }
    }
}

/// A sentence that is spoken is never empty and has no white space around it.
pub proof fn law_sentences_are_clean(pending: Seq<char>)
    ensures
        sentence_of(pending) matches Some(s) ==> s.len() > 0 && trimmed(s) == s,
{
    lemma_trimmed_has_solid_ends(pending);
}

/// Speech is cut where a sentence ends and nowhere else. Once the text so far ends in one of
/// `. ! ? : ;`, save for white space, and the token that completed it is empty or ends in a space
/// or a newline, all of it is spoken; and so it is at 120 characters. In every other case nothing
/// is said, and everything is held. What is spoken is the text without the white space around it.
pub proof fn law_speech_is_cut_where_a_sentence_ends(pending: Seq<char>, token: Seq<char>)
    ensures
        ({
            let all = pending + token;
            let ends = exists|i: int|
                0 <= i < all.len() && (#[trigger] all[i] == '.' || all[i] == '!' || all[i] == '?'
                    || all[i] == ':' || all[i] == ';') && all_white(all.skip(i + 1));
            let rests = token.len() == 0 || token.last() == ' ' || token.last() == '\n';
            let cut = (ends && rests) || all.len() >= 120;
            &&& !cut ==> said_on(pending, token) is None && held_after(pending, token) == all
            &&& cut ==> held_after(pending, token) == Seq::<char>::empty()
            &&& cut ==> (said_on(pending, token) is None <==> all_white(all))
            &&& said_on(pending, token) matches Some(said) ==> stands_in(said, all)
        }),
{
    let all = pending + token;
    let e = lemma_trimmed_end_bound(all);
    if ends_sentence(all) {
        assert(all.take(e).last() == all[e - 1]);
        assert(all_white(all.skip(e - 1 + 1)));
    }
    assert forall|i: int|
        0 <= i < all.len() && (#[trigger] all[i] == '.' || all[i] == '!' || all[i] == '?' || all[i]
            == ':' || all[i] == ';') && all_white(all.skip(i + 1)) implies ends_sentence(all) by {
        if i < e - 1 {
            assert(all.skip(i + 1)[e - 1 - (i + 1)] == all[e - 1]);
        } else if i >= e {
            assert(all.skip(e)[i - e] == all[i]);
        }
        assert(all.take(e).last() == all[i]);
    }
    law_a_flush_speaks_what_is_held(all);
}

/// Whether `said` is `all` without the white space around it.
pub open spec fn stands_in(said: Seq<char>, all: Seq<char>) -> bool {
    exists|a: int, b: int|
        0 <= a < b <= all.len() && said == #[trigger] all.subrange(a, b) && all_white(all.take(a))
            && all_white(all.skip(b)) && !is_white_space(all[a]) && !is_white_space(all[b - 1])
}

/// A flush speaks all that is held, without the white space around it, and nothing where there is
/// nothing else.
pub proof fn law_a_flush_speaks_what_is_held(pending: Seq<char>)
    ensures
        sentence_of(pending) is None <==> all_white(pending),
        sentence_of(pending) matches Some(said) ==> stands_in(said, pending),
{
    let (a, b) = lemma_trimmed_bounds(pending);
    assert(trimmed(pending) == pending.subrange(a, b));
}

/// A sentence is spoken as soon as it ends, and then nothing is held back.
pub proof fn law_a_sentence_is_spoken_as_soon_as_it_ends(pending: Seq<char>, token: Seq<char>)
    requires
        ends_sentence(pending + token),
        settled(token),
    ensures
        said_on(pending, token) == Some(trimmed(pending + token)),
        held_after(pending, token) == Seq::<char>::empty(),
{
    lemma_trimmed_to_nothing(pending + token);
}

/// Nothing is spoken while the last word may still go on, unless the text is too long already.
pub proof fn law_words_are_not_split(pending: Seq<char>, token: Seq<char>)
    requires
        !settled(token),
        (pending + token).len() < MAX_CHARS,
    ensures
        said_on(pending, token) is None,
        held_after(pending, token) == pending + token,
{
}

/// What is held back after a token is always shorter than the limit.
pub proof fn law_what_is_held_back_is_short(pending: Seq<char>, token: Seq<char>)
    ensures
        held_after(pending, token).len() < MAX_CHARS,
{
}

/// Of every run of tokens, all that is not white space is spoken, in order and once: by the
/// sentences so far, and by what is still held for the next one or for the flush.
pub proof fn law_nothing_is_lost(tokens: Seq<Seq<char>>)
    ensures
        solid(joined(said_over(tokens), seq![])) + solid(held_over(tokens)) == solid(
            joined(tokens, seq![]),
        ),
    decreases tokens.len(),
{
    let p = |c: char| !crate::text::is_white_space(c);
    lemma_nothing_is_solid();
    if tokens.len() == 0 {
        assert(joined(said_over(tokens), seq![]) =~= seq![]);
    } else {
        let before = tokens.drop_last();
        let token = tokens.last();
        let held = held_over(before);
        law_nothing_is_lost(before);
        lemma_joined_push(before, token);
        assert(before.push(token) =~= tokens);
        Seq::filter_distributes_over_add(joined(before, seq![]), token, p);
        Seq::filter_distributes_over_add(held, token, p);
        lemma_trimming_keeps_what_is_solid(held + token);
        match said_on(held, token) {
            Some(sentence) => {
                lemma_joined_push(said_over(before), sentence);
                Seq::filter_distributes_over_add(joined(said_over(before), seq![]), sentence, p);
            },
            None => {
                if is_ready(held + token, token) {
                    assert(trimmed(held + token) =~= seq![]);
                }
            },
        }
        assert(solid(joined(said_over(tokens), seq![])) + solid(held_over(tokens)) =~= solid(
            joined(tokens, seq![]),
        ));
    }
}

/// The same with the flush that ends a reply: everything the model wrote is spoken.
pub proof fn law_a_flushed_reply_is_spoken_whole(tokens: Seq<Seq<char>>)
    ensures
        solid(joined(said_over(tokens), seq![])) + (match sentence_of(held_over(tokens)) {
            Some(rest) => solid(rest),
            None => seq![],
        }) == solid(joined(tokens, seq![])),
{
    law_nothing_is_lost(tokens);
    lemma_trimming_keeps_what_is_solid(held_over(tokens));
    if sentence_of(held_over(tokens)) is None {
        assert(trimmed(held_over(tokens)) =~= seq![]);
        lemma_nothing_is_solid();
    }
}

/// One more part without a separator is just added.
pub proof fn lemma_joined_push(parts: Seq<Seq<char>>, last: Seq<char>)
    ensures
        joined(parts.push(last), seq![]) == joined(parts, seq![]) + last,
{
    assert(parts.push(last).drop_last() =~= parts);
    assert(joined(parts.push(last), seq![]) =~= joined(parts, seq![]) + last);
}

/// What holds of every push: the text so far is what was held and the token, one after the other.
/// All of it is spoken where a sentence has ended and a space or newline follows, or at 120
/// characters; in every other case nothing is said, and all of it is held.
pub proof fn law_a_push_cuts_where_a_sentence_ends(
    chunker: &mut Chunker,
    token: &str,
    r: Option<String>,
)
    requires
        call_ensures(Chunker::push, (chunker, token), r),
    ensures
        ({
            let all = old(chunker)@ + token@;
            let ends = exists|i: int|
                0 <= i < all.len() && (#[trigger] all[i] == '.' || all[i] == '!' || all[i] == '?'
                    || all[i] == ':' || all[i] == ';') && all_white(all.skip(i + 1));
            let rests = token@.len() == 0 || token@.last() == ' ' || token@.last() == '\n';
            if (ends && rests) || all.len() >= 120 {
                &&& final(chunker)@ == Seq::<char>::empty()
                &&& r is None <==> all_white(all)
                &&& r matches Some(said) ==> stands_in(said@, all)
            } else {
                r is None && final(chunker)@ == all
            }
        }),
{
    law_speech_is_cut_where_a_sentence_ends(old(chunker)@, token@);
}

/// What holds of every flush: all that is held is spoken, without the white space around it, and
/// then nothing is held.
pub proof fn law_a_flush_leaves_nothing(chunker: &mut Chunker, r: Option<String>)
    requires
        call_ensures(Chunker::flush, (chunker,), r),
    ensures
        final(chunker)@ == Seq::<char>::empty(),
        r is None <==> all_white(old(chunker)@),
        r matches Some(said) ==> stands_in(said@, old(chunker)@),
{
    law_a_flush_speaks_what_is_held(old(chunker)@);
}

} // verus!
