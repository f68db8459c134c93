//! Decision logic of the in-game chat bridge: the outbound display
//! sanitizer, the poll-failure backoff state machine, the prompt framing for
//! relayed messages, and the per-sender conversation store.
//!
//! The polling loop itself performs I/O (RCON, the assistant) and therefore
//! lives outside the library; it feeds every observation through the
//! functions here and acts on what they return.

use vstd::prelude::*;

use crate::error::SenseiError;
use crate::text;

verus! {

// ---------------------------------------------------------------------------
// outbound display sanitizer
// ---------------------------------------------------------------------------

/// Byte budget of the display channel.
pub const CHAT_BYTE_BUDGET: u64 = 1000;

/// The truncation pass: text within the byte budget is kept whole; longer
/// text is cut at the last character boundary within the budget and marked
/// with an ellipsis.
pub open spec fn spec_truncate_chat(s: Seq<char>) -> Seq<char> {
    if text::spec_bytes_len(s) <= CHAT_BYTE_BUDGET {
        s
    } else {
        text::spec_cut(s, CHAT_BYTE_BUDGET as nat) + "..."@
    }
}

/// The complete outbound sanitizer: strip code fences, bold and italic
/// markers, inline backticks and markdown headers of one to four levels;
/// replace square brackets (reserved by the display channel) with
/// parentheses; flatten lines to a single `" | "`-separated line; collapse
/// runs of spaces; truncate to the byte budget; trim.
pub open spec fn spec_sanitize_for_game(s: Seq<char>) -> Seq<char> {
    let no_fence = text::spec_replace(s, "```"@, Seq::empty());
    let no_bold = text::spec_replace(no_fence, "**"@, Seq::empty());
    let no_under = text::spec_replace(no_bold, "__"@, Seq::empty());
    let no_tick = text::spec_replace(no_under, "`"@, Seq::empty());
    let h4 = text::spec_replace(no_tick, "#### "@, Seq::empty());
    let h3 = text::spec_replace(h4, "### "@, Seq::empty());
    let h2 = text::spec_replace(h3, "## "@, Seq::empty());
    let h1 = text::spec_replace(h2, "# "@, Seq::empty());
    let open_b = text::spec_replace(h1, "["@, "("@);
    let close_b = text::spec_replace(open_b, "]"@, ")"@);
    let joined = text::spec_join_lines(close_b);
    let collapsed = text::spec_collapse_spaces(joined);
    text::spec_trim(spec_truncate_chat(collapsed))
}

/// Strip markdown formatting and bound the text for the in-game chat
/// channel.
pub fn sanitize_for_game(response: &str) -> (r: String)
    ensures
        r@ == spec_sanitize_for_game(response@),
{
    let v = text::to_char_vec(response);
    let empty: Vec<char> = Vec::new();
    let open_paren = text::to_char_vec("(");
    let close_paren = text::to_char_vec(")");
    let no_fence = text::replace_chars(&v, &text::to_char_vec("```"), &empty);
    let no_bold = text::replace_chars(&no_fence, &text::to_char_vec("**"), &empty);
    let no_under = text::replace_chars(&no_bold, &text::to_char_vec("__"), &empty);
    let no_tick = text::replace_chars(&no_under, &text::to_char_vec("`"), &empty);
    let h4 = text::replace_chars(&no_tick, &text::to_char_vec("#### "), &empty);
    let h3 = text::replace_chars(&h4, &text::to_char_vec("### "), &empty);
    let h2 = text::replace_chars(&h3, &text::to_char_vec("## "), &empty);
    let h1 = text::replace_chars(&h2, &text::to_char_vec("# "), &empty);
    let open_b = text::replace_chars(&h1, &text::to_char_vec("["), &open_paren);
    let close_b = text::replace_chars(&open_b, &text::to_char_vec("]"), &close_paren);
    let joined = text::join_lines(&close_b);
    let collapsed = text::collapse_spaces(&joined);
    let bounded: Vec<char> = if text::bytes_len_exceeds(&collapsed, CHAT_BYTE_BUDGET) {
        let mut cut = text::cut_chars(&collapsed, CHAT_BYTE_BUDGET);
        cut.push('.');
        cut.push('.');
        cut.push('.');
        proof {
            reveal_strlit("...");
            assert(cut@ =~= text::spec_cut(collapsed@, CHAT_BYTE_BUDGET as nat) + "..."@);
        }
        cut
    } else {
        collapsed
    };
    let trimmed = text::trim_chars(&bounded);
    text::chars_to_string(&trimmed)
}

// ---------------------------------------------------------------------------
// poll-failure backoff state machine
// ---------------------------------------------------------------------------

/// Poll delay while the bridge is healthy, in milliseconds.
pub const DEFAULT_POLL_MS: u64 = 2000;

/// Poll delay after repeated failures, in milliseconds.
pub const DEGRADED_POLL_MS: u64 = 10000;

/// Consecutive failures tolerated before the bridge backs off.
pub const BACKOFF_THRESHOLD: u32 = 3;

/// The bridge's error state: a counter of consecutive poll failures.  The
/// derived mode is degraded exactly when the counter has passed the
/// threshold; any successful poll resets it.
pub struct BridgeState {
    pub consecutive_errors: u32,
}

pub open spec fn spec_note_failure(s: BridgeState) -> BridgeState {
    BridgeState {
        consecutive_errors: if s.consecutive_errors < 0xFFFF_FFFF {
            (s.consecutive_errors + 1) as u32
        } else {
            s.consecutive_errors
        },
    }
}

pub open spec fn spec_note_success(s: BridgeState) -> BridgeState {
    BridgeState { consecutive_errors: 0 }
}

pub open spec fn spec_is_degraded(s: BridgeState) -> bool {
    s.consecutive_errors > BACKOFF_THRESHOLD
}

pub open spec fn spec_poll_delay_ms(s: BridgeState, base_ms: u64) -> u64 {
    if spec_is_degraded(s) {
        DEGRADED_POLL_MS
    } else {
        base_ms
    }
}

impl BridgeState {
    /// A fresh bridge has seen no failures.
    pub fn new() -> (r: BridgeState)
        ensures
            r.consecutive_errors == 0,
    {
        BridgeState { consecutive_errors: 0 }
    }

    /// A successful poll resets the failure counter.
    pub fn note_success(&mut self)
        ensures
            *final(self) == spec_note_success(*old(self)),
    {
        self.consecutive_errors = 0;
    }

    /// A failed poll bumps the failure counter (saturating).
    pub fn note_failure(&mut self)
        ensures
            *final(self) == spec_note_failure(*old(self)),
    {
        if self.consecutive_errors < 0xFFFF_FFFF {
            self.consecutive_errors = self.consecutive_errors + 1;
        }
    }

    /// Degraded mode holds after more than `BACKOFF_THRESHOLD` consecutive
    /// failures.
    pub fn is_degraded(&self) -> (r: bool)
        ensures
            r == spec_is_degraded(*self),
    {
        self.consecutive_errors > BACKOFF_THRESHOLD
    }

    /// The delay before the next poll: the configured base interval in
    /// normal mode, the fixed longer interval in degraded mode.
    pub fn poll_delay_ms(&self, base_ms: u64) -> (r: u64)
        ensures
            r == spec_poll_delay_ms(*self, base_ms),
    {
        if self.consecutive_errors > BACKOFF_THRESHOLD {
            DEGRADED_POLL_MS
        } else {
            base_ms
        }
    }

    /// Whether the failure that produced this state should still be logged:
    /// only the first `BACKOFF_THRESHOLD` consecutive failures are, to
    /// suppress repeated noise.
    pub fn should_log_failure(&self) -> (r: bool)
        ensures
            r == (self.consecutive_errors <= BACKOFF_THRESHOLD),
    {
        self.consecutive_errors <= BACKOFF_THRESHOLD
    }

    /// Whether the failure that produced this state is the one that crossed
    /// the threshold, deserving a single backoff notice.
    pub fn entered_degraded(&self) -> (r: bool)
        ensures
            r == (self.consecutive_errors == BACKOFF_THRESHOLD + 1),
    {
        self.consecutive_errors == BACKOFF_THRESHOLD + 1
    }
}

/// The backoff law: starting from a healthy bridge, the first three
/// consecutive poll failures leave the poll interval at its base value; the
/// fourth moves the very next poll to the degraded interval; and one
/// successful poll restores the base interval immediately.
pub proof fn lemma_backoff_engages_and_recovers(s0: BridgeState, base_ms: u64)
    requires
        s0.consecutive_errors == 0,
    ensures
        ({
            let s1 = spec_note_failure(s0);
            let s2 = spec_note_failure(s1);
            let s3 = spec_note_failure(s2);
            let s4 = spec_note_failure(s3);
            &&& spec_poll_delay_ms(s1, base_ms) == base_ms
            &&& spec_poll_delay_ms(s2, base_ms) == base_ms
            &&& spec_poll_delay_ms(s3, base_ms) == base_ms
            &&& spec_poll_delay_ms(s4, base_ms) == DEGRADED_POLL_MS
            &&& spec_poll_delay_ms(spec_note_success(s4), base_ms) == base_ms
        }),
{
}

// ---------------------------------------------------------------------------
// prompt framing and the fixed apology
// ---------------------------------------------------------------------------

/// The prompt handed to the assistant for a relayed in-game message, tagging
/// its origin and sender.
pub open spec fn spec_ingame_prompt(player: Seq<char>, message: Seq<char>) -> Seq<char> {
    "[In-game message from player "@ + player + "] "@ + message
}

pub fn ingame_prompt(player: &str, message: &str) -> (r: String)
    ensures
        r@ == spec_ingame_prompt(player@, message@),
{
    let mut s = String::from_str("[In-game message from player ");
    s.append(player);
    s.append("] ");
    s.append(message);
    s
}

/// The fixed reply sent in-game when the assistant fails on a message.
pub fn apology_text() -> (r: &'static str)
    ensures
        r@ == "Sorry, I encountered an error processing your question."@,
{
    "Sorry, I encountered an error processing your question."
}

// ---------------------------------------------------------------------------
// per-sender conversation histories
// ---------------------------------------------------------------------------

/// Who spoke in a conversation turn.
#[derive(Clone, Copy, PartialEq, Eq, Structural, Debug)]
pub enum ChatRole {
    Player,
    Assistant,
}

/// One prior turn of a conversation.
pub struct ChatTurn {
    pub role: ChatRole,
    pub content: String,
}

/// Index of the entry whose sender name reads `name`, or `-1`.
pub open spec fn spec_find_sender(entries: Seq<(String, Vec<ChatTurn>)>, name: Seq<char>) -> int
    decreases entries.len(),
{
    if entries.len() == 0 {
        -1
    } else if entries[0].0@ == name {
        0
    } else {
        let r = spec_find_sender(entries.skip(1), name);
        if r == -1 {
            -1
        } else {
            r + 1
        }
    }
}

/// Mapping from sender name to that player's prior turns, oldest first.
/// Entries are created on first contact and kept in insertion order; no two
/// entries share a sender name.
pub struct ConversationStore {
    pub entries: Vec<(String, Vec<ChatTurn>)>,
}

impl ConversationStore {
    /// No two entries name the same sender.
    pub open spec fn wf(&self) -> bool {
        forall|i: int, j: int|
            0 <= i < j < self.entries@.len() ==> self.entries@[i].0@ != self.entries@[j].0@
    }

    pub fn new() -> (r: ConversationStore)
        ensures
            r.wf(),
            r.entries@.len() == 0,
    {
        ConversationStore { entries: Vec::new() }
    }

    /// The position of a sender's entry, if one exists.
    fn find(&self, sender: &str) -> (r: Option<usize>)
        ensures
            match r {
                Some(i) => i < self.entries@.len() && spec_find_sender(self.entries@, sender@)
                    == i as int,
                None => spec_find_sender(self.entries@, sender@) == -1,
            },
    {
        let n = self.entries.len();
        let mut i: usize = 0;
        proof {
            assert(self.entries@.skip(0) =~= self.entries@);
        }
        while i < n
            invariant
                n == self.entries@.len(),
                i <= n,
                forall|j: int| 0 <= j < i ==> self.entries@[j].0@ != sender@,
                spec_find_sender(self.entries@, sender@) == if spec_find_sender(
                    self.entries@.skip(i as int),
                    sender@,
                ) == -1 {
                    -1
                } else {
                    i + spec_find_sender(self.entries@.skip(i as int), sender@)
                },
            decreases n - i,
        {
            proof {
                assert(self.entries@.skip(i as int)[0] == self.entries@[i as int]);
                assert(self.entries@.skip(i as int).skip(1) =~= self.entries@.skip(
                    i as int + 1,
                ));
                lemma_find_sender_bounds(self.entries@.skip(i as int + 1), sender@);
            }
            if text::str_eq(self.entries[i].0.as_str(), sender) {
                proof {
                    assert(spec_find_sender(self.entries@.skip(i as int), sender@) == 0);
                }
                return Some(i);
            }
            i = i + 1;
        }
        proof {
            assert(self.entries@.skip(n as int) =~= Seq::<(String, Vec<ChatTurn>)>::empty());
        }
        None
    }

    /// The turns recorded for a sender, if any.
    pub fn history_of(&self, sender: &str) -> (r: Option<&Vec<ChatTurn>>)
        ensures
            match r {
                Some(turns) => {
                    let i = spec_find_sender(self.entries@, sender@);
                    0 <= i < self.entries@.len() && turns@ == self.entries@[i].1@
                },
                None => spec_find_sender(self.entries@, sender@) == -1,
            },
    {
        match self.find(sender) {
            Some(i) => Some(&self.entries[i].1),
            None => None,
        }
    }

    /// Record one more turn for a sender.  The turn goes at the end of that
    /// sender's history — order of processing is preserved — and no other
    /// sender's history changes.  A first-time sender gets a fresh entry at
    /// the end of the store.
    pub fn append_turn(&mut self, sender: &str, turn: ChatTurn)
        requires
            old(self).wf(),
        ensures
            final(self).wf(),
            ({
                let i = spec_find_sender(old(self).entries@, sender@);
                let before = old(self).entries@;
                let after = final(self).entries@;
                if i == -1 {
                    &&& after.len() == before.len() + 1
                    &&& forall|j: int| 0 <= j < before.len() ==> after[j] == before[j]
                    &&& after.last().0@ == sender@
                    &&& after.last().1@ =~= seq![turn]
                } else {
                    &&& after.len() == before.len()
                    &&& forall|j: int| 0 <= j < before.len() && j != i ==> after[j] == before[j]
                    &&& after[i].0 == before[i].0
                    &&& after[i].1@ == before[i].1@.push(turn)
                }
            }),
    {
        proof {
            lemma_find_sender_bounds(self.entries@, sender@);
            lemma_find_sender_found(self.entries@, sender@);
        }
        match self.find(sender) {
            Some(i) => {
                let pair = &mut self.entries[i];
                pair.1.push(turn);
            },
            None => {
                proof {
                    lemma_find_sender_missing(self.entries@, sender@);
                }
                let mut turns: Vec<ChatTurn> = Vec::new();
                turns.push(turn);
                self.entries.push((String::from_str(sender), turns));
            },
        }
    }

    /// Drop every recorded conversation.
    pub fn clear(&mut self)
        ensures
            final(self).wf(),
            final(self).entries@.len() == 0,
    {
        self.entries = Vec::new();
    }
}

proof fn lemma_find_sender_bounds(entries: Seq<(String, Vec<ChatTurn>)>, name: Seq<char>)
    ensures
        -1 <= spec_find_sender(entries, name) < entries.len(),
    decreases entries.len(),
{
    if entries.len() > 0 {
        lemma_find_sender_bounds(entries.skip(1), name);
    }
}

proof fn lemma_find_sender_found(entries: Seq<(String, Vec<ChatTurn>)>, name: Seq<char>)
    ensures
        spec_find_sender(entries, name) != -1 ==> entries[spec_find_sender(entries, name)].0@
            == name,
    decreases entries.len(),
{
    if entries.len() > 0 {
        lemma_find_sender_found(entries.skip(1), name);
        lemma_find_sender_bounds(entries.skip(1), name);
        let r = spec_find_sender(entries.skip(1), name);
        if entries[0].0@ != name && r != -1 {
            assert(entries.skip(1)[r] == entries[r + 1]);
        }
    }
}

proof fn lemma_find_sender_missing(entries: Seq<(String, Vec<ChatTurn>)>, name: Seq<char>)
    ensures
        spec_find_sender(entries, name) == -1 ==> forall|j: int|
            0 <= j < entries.len() ==> entries[j].0@ != name,
    decreases entries.len(),
{
    if entries.len() > 0 {
        lemma_find_sender_missing(entries.skip(1), name);
        if spec_find_sender(entries, name) == -1 {
            lemma_find_sender_bounds(entries.skip(1), name);
            if entries[0].0@ == name {
                assert(spec_find_sender(entries, name) == 0);
            }
            assert(spec_find_sender(entries.skip(1), name) == -1);
            assert forall|j: int| 0 <= j < entries.len() implies entries[j].0@ != name by {
                if j > 0 {
                    assert(entries.skip(1)[j - 1] == entries[j]);
                }
            }
        }
    }
}

} // verus!

verus! {

// ---------------------------------------------------------------------------
// inbound message feed
// ---------------------------------------------------------------------------

/// A queued message a player sent from inside the game.
#[derive(Debug, PartialEq)]
pub struct CoachMessage {
    /// Sender name, unique per player.
    pub player: String,
    /// The message text.
    pub message: String,
}

pub ghost struct MessageModel {
    pub player: Seq<char>,
    pub message: Seq<char>,
}

impl CoachMessage {
    pub open spec fn model(&self) -> MessageModel {
        MessageModel { player: self.player@, message: self.message@ }
    }
}

pub open spec fn message_models(v: Seq<CoachMessage>) -> Seq<MessageModel> {
    Seq::new(
        v.len(),
        |i: int|
            if 0 <= i < v.len() {
                v[i].model()
            } else {
                arbitrary()
            },
    )
}

/// One record of the feed: a `player` and a `message` string member; other
/// members (such as a tick stamp) are ignored.
pub open spec fn sp_decode_message(m: crate::json::JsonSpec) -> Option<MessageModel> {
    if crate::json::sp_get_str(m, "player"@) is Some && crate::json::sp_get_str(
        m,
        "message"@,
    ) is Some {
        Some(
            MessageModel {
                player: crate::json::sp_get_str(m, "player"@).unwrap(),
                message: crate::json::sp_get_str(m, "message"@).unwrap(),
            },
        )
    } else {
        None
    }
}

pub open spec fn sp_decode_message_list(ms: Seq<crate::json::JsonSpec>) -> Option<
    Seq<MessageModel>,
>
    decreases ms.len(),
{
    if ms.len() == 0 {
        Some(Seq::empty())
    } else {
        match sp_decode_message(ms[0]) {
            None => None,
            Some(im) => match sp_decode_message_list(ms.skip(1)) {
                None => None,
                Some(rest) => Some(seq![im] + rest),
            },
        }
    }
}

/// The whole feed payload: a structured array of message records.
pub open spec fn sp_parse_messages(s: Seq<char>) -> Option<Seq<MessageModel>> {
    match crate::json::sp_json(s) {
        Some(crate::json::JsonSpec::Arr(ms)) => sp_decode_message_list(ms),
        _ => None,
    }
}

fn decode_message(v: &crate::json::JsonValue) -> (r: Option<CoachMessage>)
    ensures
        match r {
            Some(it) => sp_decode_message(crate::json::model_of(*v)) == Some(it.model()),
            None => sp_decode_message(crate::json::model_of(*v)) is None,
        },
{
    let player = v.get_str_field("player");
    let message = v.get_str_field("message");
    match (player, message) {
        (Some(player), Some(message)) => Some(CoachMessage { player, message }),
        _ => None,
    }
}

fn decode_message_list(items: &Vec<crate::json::JsonValue>) -> (r: Option<Vec<CoachMessage>>)
    ensures
        match r {
            Some(out) => sp_decode_message_list(crate::json::models_of(items@)) == Some(
                message_models(out@),
            ),
            None => sp_decode_message_list(crate::json::models_of(items@)) is None,
        },
{
    let ghost ms = crate::json::models_of(items@);
    let n = items.len();
    let mut out: Vec<CoachMessage> = Vec::new();
    let mut i: usize = 0;
    proof {
        assert(ms.skip(0) =~= ms);
        assert(message_models(out@) =~= Seq::<MessageModel>::empty());
        if sp_decode_message_list(ms) is Some {
            let rest = sp_decode_message_list(ms).unwrap();
            assert(Seq::<MessageModel>::empty() + rest =~= rest);
        }
    }
    while i < n
        invariant
            n == items@.len(),
            i <= n,
            ms == crate::json::models_of(items@),
            sp_decode_message_list(ms) == crate::tools::sp_prepend_list(
                message_models(out@),
                sp_decode_message_list(ms.skip(i as int)),
            ),
        decreases n - i,
    {
        proof {
            assert(ms.skip(i as int)[0] == ms[i as int]);
            assert(ms[i as int] == crate::json::model_of(items@[i as int]));
            assert(ms.skip(i as int).skip(1) =~= ms.skip(i as int + 1));
        }
        match decode_message(&items[i]) {
            None => {
                return None;
            },
            Some(it) => {
                let ghost old_out = out@;
                out.push(it);
                proof {
                    assert(message_models(out@) =~= message_models(old_out).push(
                        out@.last().model(),
                    ));
                    let x = sp_decode_message_list(ms.skip(i as int + 1));
                    if x is Some {
                        let rest = x.unwrap();
                        assert(message_models(old_out) + (seq![out@.last().model()] + rest)
                            =~= message_models(out@) + rest);
                    }
                }
                i = i + 1;
            },
        }
    }
    proof {
        assert(ms.skip(n as int) =~= Seq::<crate::json::JsonSpec>::empty());
        assert(message_models(out@) + Seq::<MessageModel>::empty() =~= message_models(out@));
    }
    Some(out)
}

/// Decode a message-feed payload (already known to embed no error marker).
pub fn parse_coach_messages(s: &str) -> (r: Option<Vec<CoachMessage>>)
    ensures
        match r {
            Some(msgs) => sp_parse_messages(s@) == Some(message_models(msgs@)),
            None => sp_parse_messages(s@) is None,
        },
{
    match crate::json::parse_json(s) {
        None => None,
        Some(jv) => match jv.as_items() {
            None => None,
            Some(items) => decode_message_list(items),
        },
    }
}

/// Classify one poll cycle's raw response, after trimming: an empty reply
/// or the empty-array sentinel means no pending messages; a reply carrying
/// an embedded error marker is a failed poll; anything else must decode as
/// an array of message records.
pub fn parse_poll_response(response: &str) -> (r: Result<Vec<CoachMessage>, SenseiError>)
    ensures
        ({
            let t = text::spec_trim(response@);
            match r {
                Ok(msgs) => if t.len() == 0 || t == "[]"@ {
                    msgs@.len() == 0
                } else {
                    !text::spec_contains(t, "\"error\""@) && sp_parse_messages(t) == Some(
                        message_models(msgs@),
                    )
                },
                Err(e) => t.len() != 0 && t != "[]"@ && match e {
                    SenseiError::LuaError(m) => text::spec_contains(t, "\"error\""@) && m@
                        == t,
                    SenseiError::JsonParse(m) => !text::spec_contains(t, "\"error\""@)
                        && sp_parse_messages(t) is None && m@
                        == "unexpected poll payload"@,
                    _ => false,
                },
            }
        }),
{
    let v = text::to_char_vec(response);
    let tv = text::trim_chars(&v);
    if tv.len() == 0 {
        return Ok(Vec::new());
    }
    if tv.len() == 2 && tv[0] == '[' && tv[1] == ']' {
        proof {
            reveal_strlit("[]");
            assert(tv@ =~= "[]"@);
        }
        return Ok(Vec::new());
    }
    proof {
        reveal_strlit("[]");
        if tv@.len() == 2 {
            assert(tv@ != "[]"@) by {
                if tv@ == "[]"@ {
                    assert(tv@[0] == '[' && tv@[1] == ']');
                }
            }
        }
    }
    let marker = text::to_char_vec("\"error\"");
    let trimmed = text::chars_to_string(&tv);
    if text::contains_chars(&tv, &marker) {
        return Err(SenseiError::LuaError(trimmed));
    }
    match parse_coach_messages(trimmed.as_str()) {
        Some(msgs) => Ok(msgs),
        None => Err(SenseiError::JsonParse(String::from_str("unexpected poll payload"))),
    }
}

} // verus!

verus! {

/// The text sent back into game chat for one processed message: the
/// assistant's reply sanitized for the display channel, or the fixed
/// apology when the assistant failed on this message.
pub fn outbound_reply(reply: Option<&str>) -> (r: String)
    ensures
        match reply {
            Some(t) => r@ == spec_sanitize_for_game(t@),
            None => r@ == "Sorry, I encountered an error processing your question."@,
        },
{
    match reply {
        Some(t) => sanitize_for_game(t),
        None => String::from_str(apology_text()),
    }
}

} // verus!

