//! State and decisions of the development viewer server: the latest frame of each game run,
//! the single-controller input lease, and HTTP routing.
use vstd::prelude::*;
use vstd::string::{StrSliceExecFns, StringSliceAdditionalSpecFns};

use super::protocol::{browser_input_parse, BrowserInput, BrowserInputView, ControlMessage, Frame};
use crate::text::{
    decimal, extend_bytes, owned, push_decimal, push_str, str_equal, starts_with,
};

verus! {

/// Milliseconds after the last input from the controlling viewer at which its lease expires.
pub const INPUT_LEASE_TIMEOUT_MS: u64 = 1000;

pub const HTTP_HEADER_MAX_BYTES: usize = 8192;

#[derive(Clone, Copy, Debug, PartialEq, Eq, Structural)]
pub enum ViewerState {
    Running,
    Stopped,
    Building,
    BuildFailed,
    Watching,
}

pub open spec fn wire_text(state: ViewerState, frame_available: bool) -> Seq<char> {
    if frame_available {
        "live"@
    } else {
        match state {
            ViewerState::Running => "running"@,
            ViewerState::Stopped => "stopped"@,
            ViewerState::Building => "building"@,
            ViewerState::BuildFailed => "error"@,
            ViewerState::Watching => "watching"@,
        }
    }
}

impl ViewerState {
    /// The state as reported to the browser.
    pub fn wire(self, frame_available: bool) -> (text: &'static str)
        ensures
            text@ == wire_text(self, frame_available),
    {
        if frame_available {
            return "live";
        }
        match self {
            ViewerState::Running => "running",
            ViewerState::Stopped => "stopped",
            ViewerState::Building => "building",
            ViewerState::BuildFailed => "error",
            ViewerState::Watching => "watching",
        }
    }
}

/// A frame as its sequence number and pixels.
pub open spec fn frame_view(frame: Frame) -> (u64, Seq<u8>) {
    (frame.sequence, frame.pixels@)
}

/// An exact copy of a frame.
pub fn copy_frame(frame: &Frame) -> (copy: Frame)
    ensures
        frame_view(copy) == frame_view(*frame),
{
    let mut pixels: Vec<u8> = Vec::new();
    extend_bytes(&mut pixels, frame.pixels.as_slice());
    Frame { sequence: frame.sequence, pixels }
}

/// The latest frame of the current game run and the viewer state. Sequence numbers that a
/// game reports are offset so that they keep increasing across runs.
pub struct FrameStore {
    latest: Option<Frame>,
    state: ViewerState,
    generation: u64,
    sequence: u64,
    delivery_offset: u64,
}

/// The abstract contents of a frame store.
pub struct FrameStoreView {
    pub latest: Option<(u64, Seq<u8>)>,
    pub state: ViewerState,
    pub generation: u64,
    pub sequence: u64,
    pub delivery_offset: u64,
}

/// What a viewer receives when it asks for a frame.
pub struct FrameSnapshot {
    pub frame: Option<Frame>,
    pub state: ViewerState,
    pub generation: u64,
}

impl View for FrameStore {
    type V = FrameStoreView;

    closed spec fn view(&self) -> FrameStoreView {
        FrameStoreView {
            latest: match self.latest {
                Some(f) => Some(frame_view(f)),
                None => None,
            },
            state: self.state,
            generation: self.generation,
            sequence: self.sequence,
            delivery_offset: self.delivery_offset,
        }
    }
}

impl FrameStore {
    /// A running store with no frame, in generation zero.
    pub fn new() -> (store: FrameStore)
        ensures
            store@.latest is None,
            store@.state == ViewerState::Running,
            store@.generation == 0,
            store@.sequence == 0,
            store@.delivery_offset == 0,
    {
        FrameStore {
            latest: None,
            state: ViewerState::Running,
            generation: 0,
            sequence: 0,
            delivery_offset: 0,
        }
    }

    /// Records a frame of the current run, offsetting its sequence number.
    pub fn publish(&mut self, frame: Frame)
        requires
            frame.sequence + old(self)@.delivery_offset <= u64::MAX,
        ensures
            final(self)@.latest == Some(
                ((frame.sequence + old(self)@.delivery_offset) as u64, frame.pixels@),
            ),
            final(self)@.sequence == frame.sequence + old(self)@.delivery_offset,
            final(self)@.state == old(self)@.state,
            final(self)@.generation == old(self)@.generation,
            final(self)@.delivery_offset == old(self)@.delivery_offset,
    {
        let mut frame = frame;
        frame.sequence = frame.sequence + self.delivery_offset;
        self.sequence = frame.sequence;
        self.latest = Some(frame);
    }

    /// Starts a new game run: a new generation whose frames follow the last one delivered.
    pub fn begin_run(&mut self)
        requires
            old(self)@.generation < u64::MAX,
        ensures
            final(self)@.generation == old(self)@.generation + 1,
            final(self)@.delivery_offset == old(self)@.sequence,
            final(self)@.sequence == old(self)@.sequence,
            final(self)@.latest is None,
            final(self)@.state == ViewerState::Running,
    {
        self.generation = self.generation + 1;
        self.delivery_offset = self.sequence;
        self.latest = None;
        self.state = ViewerState::Running;
    }

    /// Sets the viewer state; a build discards the last frame.
    pub fn set_state(&mut self, status: ViewerState)
        ensures
            final(self)@.state == status,
            final(self)@.latest == if status == ViewerState::Building || status
                == ViewerState::BuildFailed {
                None
            } else {
                old(self)@.latest
            },
            final(self)@.generation == old(self)@.generation,
            final(self)@.sequence == old(self)@.sequence,
            final(self)@.delivery_offset == old(self)@.delivery_offset,
    {
        if status == ViewerState::Building || status == ViewerState::BuildFailed {
            self.latest = None;
        }
        self.state = status;
    }

    pub fn stop(&mut self)
        ensures
            final(self)@.state == ViewerState::Stopped,
            final(self)@.latest == old(self)@.latest,
            final(self)@.generation == old(self)@.generation,
            final(self)@.sequence == old(self)@.sequence,
            final(self)@.delivery_offset == old(self)@.delivery_offset,
    {
        self.state = ViewerState::Stopped;
    }

    pub fn generation(&self) -> (generation: u64)
        ensures
            generation == self@.generation,
    {
        self.generation
    }

    pub fn latest_sequence(&self) -> (sequence: Option<u64>)
        ensures
            sequence == match self@.latest {
                Some(f) => Some(f.0),
                None => None::<u64>,
            },
    {
        match &self.latest {
            Some(frame) => Some(frame.sequence),
            None => None,
        }
    }

    /// Whether a viewer that has seen frame `sequence` should keep waiting for a newer one.
    pub fn keeps_waiting(&self, sequence: u64) -> (waiting: bool)
        ensures
            waiting == (self@.state == ViewerState::Running && match self@.latest {
                Some(f) => f.0 <= sequence,
                None => true,
            }),
    {
        self.state == ViewerState::Running && match &self.latest {
            Some(frame) => frame.sequence <= sequence,
            None => true,
        }
    }

    /// The frame newer than `sequence`, if any, with the state and generation.
    pub fn snapshot_after(&self, sequence: u64) -> (snapshot: FrameSnapshot)
        ensures
            snapshot.state == self@.state,
            snapshot.generation == self@.generation,
            match (snapshot.frame, self@.latest) {
                (Some(f), Some(l)) => l.0 > sequence && frame_view(f) == l,
                (None, Some(l)) => l.0 <= sequence,
                (None, None) => true,
                (Some(_), None) => false,
            },
    {
        let frame = match &self.latest {
            Some(frame) => if frame.sequence > sequence {
                Some(copy_frame(frame))
            } else {
                None
            },
            None => None,
        };
        FrameSnapshot { frame, state: self.state, generation: self.generation }
    }
}

/// Frames published after a new run began are reported with sequence numbers above every
/// frame delivered before it.
pub proof fn lemma_runs_keep_sequences_increasing(
    before: FrameStoreView,
    started: FrameStoreView,
    published_sequence: u64,
)
    requires
        started.delivery_offset == before.sequence,
        published_sequence > 0,
        published_sequence + started.delivery_offset <= u64::MAX,
    ensures
        published_sequence + started.delivery_offset > before.sequence,
{
}

// ---------------------------------------------------------------------------------------------
// Input control
#[derive(Clone, Copy, Debug, PartialEq, Eq, Structural)]
pub enum InputResult {
    Accepted,
    Ignored,
    Busy,
    GameUnavailable,
    StaleGeneration,
}

/// Who controls a connected game's input, and since when. The game's stream itself is held by
/// the caller, which performs the sends these decisions ask for.
pub struct InputControl {
    generation: u64,
    game_connected: bool,
    owner: Option<String>,
    last_seen: Option<u64>,
}

pub struct InputControlView {
    pub generation: u64,
    pub game_connected: bool,
    pub owner: Option<Seq<char>>,
    pub last_seen: Option<u64>,
}

/// What the caller does next for an input message.
pub enum InputStep {
    /// The request is answered with this result.
    Done(InputResult),
    /// The message is sent to the game; the send's outcome is then passed to `finish_send`.
    Send(ControlMessage),
}

impl View for InputControl {
    type V = InputControlView;

    closed spec fn view(&self) -> InputControlView {
        InputControlView {
            generation: self.generation,
            game_connected: self.game_connected,
            owner: match self.owner {
                Some(o) => Some(o@),
                None => None,
            },
            last_seen: self.last_seen,
        }
    }
}

/// The control message that an input carries, if any.
pub open spec fn message_of(input: BrowserInputView) -> Option<ControlMessage> {
    match input {
        BrowserInputView::Key { key, down, .. } => Some(ControlMessage::Key { key, down }),
        BrowserInputView::ReleaseAll { .. } => Some(ControlMessage::ReleaseAll),
        _ => None,
    }
}

/// How `apply` answers an input, and the control state after it.
pub open spec fn apply_outcome(
    s: InputControlView,
    input: BrowserInputView,
    generation: u64,
    now: u64,
) -> (InputStep, InputControlView) {
    if !s.game_connected {
        (InputStep::Done(InputResult::GameUnavailable), s)
    } else if generation != s.generation {
        (InputStep::Done(InputResult::StaleGeneration), s)
    } else if input is UnsupportedKey {
        (InputStep::Done(InputResult::Ignored), s)
    } else if s.owner is Some && s.owner != Some(input.client()) {
        (InputStep::Done(InputResult::Busy), s)
    } else {
        let claimed = InputControlView {
            owner: Some(input.client()),
            last_seen: Some(now),
            ..s
        };
        match message_of(input) {
            Some(m) => (InputStep::Send(m), claimed),
            None => (InputStep::Done(InputResult::Accepted), claimed),
        }
    }
}

impl InputControl {
    pub fn new() -> (control: InputControl)
        ensures
            control@.generation == 0,
            !control@.game_connected,
            control@.owner is None,
            control@.last_seen is None,
    {
        InputControl { generation: 0, game_connected: false, owner: None, last_seen: None }
    }

    /// A game of run `generation` connected; nobody controls it yet.
    pub fn connect_game(&mut self, generation: u64)
        ensures
            final(self)@.generation == generation,
            final(self)@.game_connected,
            final(self)@.owner is None,
            final(self)@.last_seen is None,
    {
        self.generation = generation;
        self.game_connected = true;
        self.owner = None;
        self.last_seen = None;
    }

    pub fn disconnect_game(&mut self)
        ensures
            final(self)@.generation == old(self)@.generation,
            !final(self)@.game_connected,
            final(self)@.owner is None,
            final(self)@.last_seen is None,
    {
        self.game_connected = false;
        self.owner = None;
        self.last_seen = None;
    }

    pub fn has_game(&self) -> (connected: bool)
        ensures
            connected == self@.game_connected,
    {
        self.game_connected
    }

    /// Decides what to do with an input of run `generation` received at `now` (milliseconds):
    /// answer it at once, or send its control message to the game.
    pub fn apply(&mut self, input: &BrowserInput, generation: u64, now: u64) -> (step: InputStep)
        ensures
            (step, final(self)@) == apply_outcome(old(self)@, input@, generation, now),
    {
        if !self.game_connected {
            return InputStep::Done(InputResult::GameUnavailable);
        }
        if generation != self.generation {
            return InputStep::Done(InputResult::StaleGeneration);
        }
        if let BrowserInput::UnsupportedKey { .. } = input {
            return InputStep::Done(InputResult::Ignored);
        }
        let client = input.client();
        let busy = match &self.owner {
            Some(owner) => !str_equal(owner.as_str(), client),
            None => false,
        };
        if busy {
            return InputStep::Done(InputResult::Busy);
        }
        if self.owner.is_none() {
            self.owner = Some(owned(client));
        }
        self.last_seen = Some(now);
        match input {
            BrowserInput::Key { key, down, .. } => InputStep::Send(
                ControlMessage::Key { key: *key, down: *down },
            ),
            BrowserInput::ReleaseAll { .. } => InputStep::Send(ControlMessage::ReleaseAll),
            _ => InputStep::Done(InputResult::Accepted),
        }
    }

    /// Completes an input after its control message was sent (`sent`) or could not be. A failed
    /// send means the game is gone; a delivered release gives up control.
    pub fn finish_send(&mut self, sent: bool, releases_control: bool) -> (result: InputResult)
        ensures
            !sent ==> result == InputResult::GameUnavailable && !final(self)@.game_connected
                && final(self)@.owner is None && final(self)@.last_seen is None,
            sent ==> result == InputResult::Accepted && final(self)@.game_connected == old(
                self,
            )@.game_connected,
            sent && releases_control ==> final(self)@.owner is None && final(self)@.last_seen is None,
            sent && !releases_control ==> final(self)@.owner == old(self)@.owner
                && final(self)@.last_seen == old(self)@.last_seen,
            final(self)@.generation == old(self)@.generation,
    {
        if !sent {
            self.game_connected = false;
            self.owner = None;
            self.last_seen = None;
            return InputResult::GameUnavailable;
        }
        if releases_control {
            self.owner = None;
            self.last_seen = None;
        }
        InputResult::Accepted
    }

    /// Whether the controller's lease has expired at `now`, so that every key should be
    /// released.
    pub fn lease_expired(&self, now: u64) -> (expired: bool)
        ensures
            expired == (self@.owner is Some && match self@.last_seen {
                Some(t) => now >= t && now - t >= INPUT_LEASE_TIMEOUT_MS,
                None => false,
            }),
    {
        self.owner.is_some() && match self.last_seen {
            Some(last_seen) => now >= last_seen && now - last_seen >= INPUT_LEASE_TIMEOUT_MS,
            None => false,
        }
    }

    /// Ends an expired lease after a release was sent (`sent`) or could not be.
    pub fn end_lease(&mut self, sent: bool)
        ensures
            final(self)@.owner is None,
            final(self)@.last_seen is None,
            final(self)@.game_connected == (old(self)@.game_connected && sent),
            final(self)@.generation == old(self)@.generation,
    {
        if !sent {
            self.game_connected = false;
        }
        self.owner = None;
        self.last_seen = None;
    }
}

/// While a viewer controls a game, every other viewer's input for the same run is refused as
/// busy and leaves the control state unchanged.
pub proof fn lemma_single_controller(
    s: InputControlView,
    input: BrowserInputView,
    generation: u64,
    now: u64,
)
    requires
        s.game_connected,
        generation == s.generation,
        !(input is UnsupportedKey),
        s.owner is Some,
        s.owner != Some(input.client()),
    ensures
        apply_outcome(s, input, generation, now) == (InputStep::Done(InputResult::Busy), s),
{
}

/// Input that belongs to another run never reaches the game and changes nothing.
pub proof fn lemma_stale_input_is_refused(
    s: InputControlView,
    input: BrowserInputView,
    generation: u64,
    now: u64,
)
    requires
        s.game_connected,
        generation != s.generation,
    ensures
        apply_outcome(s, input, generation, now) == (
            InputStep::Done(InputResult::StaleGeneration),
            s,
        ),
{
}

// ---------------------------------------------------------------------------------------------
// HTTP
/// The value of unsigned decimal text as Rust parses a `u64`: an optional `+`, then at least one
/// digit, with no overflow.
pub open spec fn parse_u64_spec(s: Seq<u8>) -> Option<u64> {
    let digits = unsigned_digits(s);
    if digits.len() == 0 || !(forall|i: int| 0 <= i < digits.len() ==> crate::lexer::is_digit(
        #[trigger] digits[i],
    )) {
        None
    } else if crate::lexer::digits_value(digits) > u64::MAX {
        None
    } else {
        Some(crate::lexer::digits_value(digits) as u64)
    }
}

pub(crate) proof fn lemma_digits_value_prefix(s: Seq<u8>, n: int)
    requires
        0 <= n <= s.len(),
        forall|k: int| 0 <= k < s.len() ==> crate::lexer::is_digit(#[trigger] s[k]),
    ensures
        crate::lexer::digits_value(s.subrange(0, n)) <= crate::lexer::digits_value(s),
    decreases s.len(),
{
    if n < s.len() {
        let t = s.drop_last();
        assert(s.subrange(0, n) == t.subrange(0, n));
        lemma_digits_value_prefix(t, n);
    } else {
        assert(s.subrange(0, n) == s);
    }
}

/// The text after an optional leading `+`.
pub open spec fn unsigned_digits(s: Seq<u8>) -> Seq<u8> {
    if s.len() > 0 && s[0] == 0x2Bu8 {
        s.drop_first()
    } else {
        s
    }
}

/// Whether every byte is a decimal digit.
fn all_digits(s: &[u8]) -> (all: bool)
    ensures
        all == forall|i: int| 0 <= i < s@.len() ==> crate::lexer::is_digit(#[trigger] s@[i]),
{
    let mut k: usize = 0;
    while k < s.len()
        invariant
            k <= s@.len(),
            forall|i: int| 0 <= i < k ==> crate::lexer::is_digit(#[trigger] s@[i]),
        decreases s.len() - k,
    {
        if !(0x30u8 <= s[k] && s[k] <= 0x39u8) {
            return false;
        }
        k += 1;
    }
    true
}

/// Parses unsigned decimal text as Rust's `u64::from_str` does.
pub fn parse_u64(s: &[u8]) -> (value: Option<u64>)
    ensures
        value == parse_u64_spec(s@),
{
    let digits: &[u8] = if s.len() > 0 && s[0] == 0x2Bu8 {
        &s[1..s.len()]
    } else {
        s
    };
    assert(digits@ == unsigned_digits(s@));
    if digits.len() == 0 || !all_digits(digits) {
        return None;
    }
    let mut value: u64 = 0;
    let mut k: usize = 0;
    while k < digits.len()
        invariant
            k <= digits@.len(),
            digits@ == unsigned_digits(s@),
            digits@.len() > 0,
            forall|i: int| 0 <= i < digits@.len() ==> crate::lexer::is_digit(#[trigger] digits@[i]),
            value == crate::lexer::digits_value(digits@.subrange(0, k as int)),
        decreases digits.len() - k,
    {
        assert(digits@.subrange(0, k + 1).drop_last() == digits@.subrange(0, k as int));
        let d = (digits[k] - 48u8) as u64;
        if value > (u64::MAX - d) / 10 {
            proof {
                lemma_digits_value_prefix(digits@, k + 1);
                let prefix = digits@.subrange(0, k + 1);
                assert(prefix.last() == digits@[k as int]);
                assert(crate::lexer::digits_value(prefix) == value * 10 + d);
                assert(value * 10 + d > u64::MAX) by (nonlinear_arith)
                    requires
                        value > (u64::MAX - d) / 10,
                        d <= 9,
                ;
            }
            return None;
        }
        value = value * 10 + d;
        k += 1;
    }
    assert(digits@.subrange(0, k as int) == digits@);
    Some(value)
}

/// The text after `after=` in the first `&`-separated part that begins with it.
pub open spec fn after_parameter(b: Seq<u8>) -> Option<Seq<u8>>
    decreases b.len(),
{
    let end = part_end(b, 0);
    proof {
        lemma_part_end(b, 0);
    }
    let part = b.subrange(0, end);
    if part.len() >= 6 && part.subrange(0, 6) == after_prefix() {
        Some(part.subrange(6, part.len() as int))
    } else if end < b.len() {
        after_parameter(b.subrange(end + 1, b.len() as int))
    } else {
        None
    }
}

/// The bytes `after=`.
pub open spec fn after_prefix() -> Seq<u8> {
    seq![0x61u8, 0x66u8, 0x74u8, 0x65u8, 0x72u8, 0x3Du8]
}

/// Position of the first `&` at or after `i`, or the length.
pub open spec fn part_end(b: Seq<u8>, i: int) -> int
    decreases b.len() - i,
{
    if i >= b.len() || b[i] == 0x26u8 {
        if i > b.len() {
            b.len() as int
        } else {
            i
        }
    } else {
        part_end(b, i + 1)
    }
}

/// Leading `?` bytes removed.
pub open spec fn strip_questions(b: Seq<u8>) -> Seq<u8>
    decreases b.len(),
{
    if b.len() > 0 && b[0] == 0x3Fu8 {
        strip_questions(b.drop_first())
    } else {
        b
    }
}

/// What the `after` sequence of a `/frame` query is.
pub open spec fn after_query(q: Seq<u8>) -> Result<u64, Seq<char>> {
    if q.len() == 0 || q == seq![0x3Fu8] {
        Ok(0)
    } else {
        let value = match after_parameter(strip_questions(q)) {
            Some(v) => v,
            None => seq![0x30u8],
        };
        match parse_u64_spec(value) {
            Some(v) => Ok(v),
            None => Err("`after` frame sequence must be an unsigned integer"@),
        }
    }
}

pub proof fn lemma_part_end(b: Seq<u8>, i: int)
    requires
        0 <= i <= b.len(),
    ensures
        i <= part_end(b, i) <= b.len(),
        part_end(b, i) < b.len() ==> b[part_end(b, i)] == 0x26u8,
    decreases b.len() - i,
{
    if i < b.len() && b[i] != 0x26u8 {
        lemma_part_end(b, i + 1);
    }
}

/// Position after the leading `?` bytes.
fn skip_questions(query: &[u8]) -> (start: usize)
    ensures
        start <= query@.len(),
        strip_questions(query@) == query@.subrange(start as int, query@.len() as int),
{
    let mut start: usize = 0;
    assert(query@.subrange(0, query@.len() as int) == query@);
    while start < query.len() && query[start] == 0x3Fu8
        invariant
            start <= query@.len(),
            strip_questions(query@) == strip_questions(
                query@.subrange(start as int, query@.len() as int),
            ),
        decreases query.len() - start,
    {
        assert(query@.subrange(start as int, query@.len() as int).drop_first() == query@.subrange(
            start + 1,
            query@.len() as int,
        ));
        start += 1;
    }
    start
}

/// Position of the first `&` at or after `from`, or the length.
fn find_part_end(query: &[u8], from: usize) -> (end: usize)
    requires
        from <= query@.len(),
    ensures
        end == from + part_end(query@.subrange(from as int, query@.len() as int), 0),
        from <= end <= query@.len(),
{
    let ghost rest = query@.subrange(from as int, query@.len() as int);
    proof {
        lemma_part_end(rest, 0);
    }
    let mut end = from;
    while end < query.len() && query[end] != 0x26u8
        invariant
            from <= end <= query@.len(),
            rest == query@.subrange(from as int, query@.len() as int),
            part_end(rest, 0) == part_end(rest, end - from),
        decreases query.len() - end,
    {
        assert(rest[end - from] == query@[end as int]);
        end += 1;
    }
    if end < query.len() {
        assert(rest[end - from] == query@[end as int]);
    }
    end
}

/// The range of the `after=` value in the query, from the first part that has one.
fn find_after(query: &[u8], start: usize) -> (range: Option<(usize, usize)>)
    requires
        start <= query@.len(),
    ensures
        match (range, after_parameter(query@.subrange(start as int, query@.len() as int))) {
            (Some((a, b)), Some(v)) => a <= b <= query@.len() && query@.subrange(a as int, b as int)
                == v,
            (None, None) => true,
            _ => false,
        },
{
    let prefix: [u8; 6] = [0x61u8, 0x66u8, 0x74u8, 0x65u8, 0x72u8, 0x3Du8];
    assert(prefix@ == after_prefix());
    let ghost whole = query@.subrange(start as int, query@.len() as int);
    let mut part_start = start;
    while part_start <= query.len()
        invariant
            start <= part_start <= query@.len(),
            prefix@ == after_prefix(),
            whole == query@.subrange(start as int, query@.len() as int),
            after_parameter(whole) == after_parameter(
                query@.subrange(part_start as int, query@.len() as int),
            ),
        decreases query.len() - part_start,
    {
        let ghost rest = query@.subrange(part_start as int, query@.len() as int);
        let end = find_part_end(query, part_start);
        let part: &[u8] = &query[part_start..end];
        assert(part@ == rest.subrange(0, part_end(rest, 0)));
        if part.len() >= 6 && crate::text::bytes_equal(&part[0..6], &prefix) {
            assert(part@.subrange(0, 6) == after_prefix());
            assert(query@.subrange(part_start + 6, end as int) == part@.subrange(6, part@.len() as int));
            return Some((part_start + 6, end));
        }
        if end == query.len() {
            return None;
        }
        assert(rest.subrange(part_end(rest, 0) + 1, rest.len() as int) == query@.subrange(
            end + 1,
            query@.len() as int,
        ));
        part_start = end + 1;
    }
    None
}

pub fn parse_after(query: &[u8]) -> (after: Result<u64, String>)
    ensures
        match (after, after_query(query@)) {
            (Ok(v), Ok(w)) => v == w,
            (Err(e), Err(m)) => e@ == m,
            _ => false,
        },
{
    if query.len() == 0 || (query.len() == 1 && query[0] == 0x3Fu8) {
        assert(query.len() == 1 ==> query@ == seq![0x3Fu8]);
        return Ok(0);
    }
    assert(query@ != seq![0x3Fu8]);
    let start = skip_questions(query);
    let zero: [u8; 1] = [0x30u8];
    assert(zero@ == seq![0x30u8]);
    let parsed = match find_after(query, start) {
        Some((a, b)) => parse_u64(&query[a..b]),
        None => parse_u64(&zero),
    };
    match parsed {
        Some(v) => Ok(v),
        None => Err(owned("`after` frame sequence must be an unsigned integer")),
    }
}

// ---------------------------------------------------------------------------------------------
// Routing

/// What an HTTP request to the viewer asks for.
#[derive(Clone, Copy, Debug, PartialEq, Eq, Structural)]
pub enum Route {
    /// `GET /`: the viewer page.
    Viewer,
    /// `GET /favicon.ico`: nothing.
    Favicon,
    /// `GET /frame[?after=N]`: the first frame newer than `after`.
    Frame { after: u64 },
    /// `POST /input?generation=N`: a browser input for run `generation`.
    Input { generation: u64 },
    /// `/input` with another method.
    InputMethodNotAllowed,
    /// `POST /input` without a run generation.
    InputWithoutGeneration,
    /// Anything else.
    NotFound,
}

/// The bytes of `/frame`.
pub open spec fn frame_prefix() -> Seq<u8> {
    seq![0x2Fu8, 0x66u8, 0x72u8, 0x61u8, 0x6Du8, 0x65u8]
}

/// The bytes of `/input`.
pub open spec fn input_target() -> Seq<u8> {
    seq![0x2Fu8, 0x69u8, 0x6Eu8, 0x70u8, 0x75u8, 0x74u8]
}

/// The bytes of `/input?generation=`.
pub open spec fn generation_prefix() -> Seq<u8> {
    input_target() + seq![0x3Fu8, 0x67u8, 0x65u8, 0x6Eu8, 0x65u8, 0x72u8, 0x61u8, 0x74u8, 0x69u8, 0x6Fu8, 0x6Eu8, 0x3Du8]
}

/// The position of the first `?`, or the length.
pub open spec fn question_at(b: Seq<u8>, i: int) -> int
    decreases b.len() - i,
{
    if i >= b.len() || b[i] == 0x3Fu8 {
        if i > b.len() {
            b.len() as int
        } else {
            i
        }
    } else {
        question_at(b, i + 1)
    }
}

/// Whether `b` begins with `prefix`.
pub open spec fn begins_with(b: Seq<u8>, prefix: Seq<u8>) -> bool {
    prefix.len() <= b.len() && b.subrange(0, prefix.len() as int) == prefix
}

/// Where a request goes, given whether its method is `GET`, whether it is `POST`, and its path;
/// a `/frame` query whose `after` is not an unsigned integer is refused with that message.
pub open spec fn route_of(get: bool, post: bool, path: Seq<u8>) -> Result<Route, Seq<char>> {
    if get && path == seq![0x2Fu8] {
        Ok(Route::Viewer)
    } else if get && path == seq![0x2Fu8, 0x66u8, 0x61u8, 0x76u8, 0x69u8, 0x63u8, 0x6Fu8, 0x6Eu8, 0x2Eu8, 0x69u8, 0x63u8, 0x6Fu8] {
        Ok(Route::Favicon)
    } else if get && begins_with(path, frame_prefix()) {
        let query = path.subrange(6, path.len() as int);
        if query.len() > 0 && query[0] != 0x3Fu8 {
            Ok(Route::NotFound)
        } else {
            match after_query(query) {
                Ok(after) => Ok(Route::Frame { after }),
                Err(message) => Err(message),
            }
        }
    } else if path.subrange(0, question_at(path, 0)) == input_target() {
        if !post {
            Ok(Route::InputMethodNotAllowed)
        } else if begins_with(path, generation_prefix()) {
            match parse_u64_spec(path.subrange(generation_prefix().len() as int, path.len() as int)) {
                Some(generation) => Ok(Route::Input { generation }),
                None => Ok(Route::InputWithoutGeneration),
            }
        } else {
            Ok(Route::InputWithoutGeneration)
        }
    } else {
        Ok(Route::NotFound)
    }
}

proof fn lemma_question_at(b: Seq<u8>, i: int)
    requires
        0 <= i <= b.len(),
    ensures
        i <= question_at(b, i) <= b.len(),
        forall|j: int| i <= j < question_at(b, i) ==> b[j] != 0x3Fu8,
        question_at(b, i) < b.len() ==> b[question_at(b, i)] == 0x3Fu8,
    decreases b.len() - i,
{
    if i < b.len() && b[i] != 0x3Fu8 {
        lemma_question_at(b, i + 1);
    }
}

/// Whether `b` begins with `prefix`.
fn has_byte_prefix(b: &[u8], prefix: &[u8]) -> (found: bool)
    ensures
        found == begins_with(b@, prefix@),
{
    if prefix.len() > b.len() {
        return false;
    }
    crate::text::bytes_equal(&b[0..prefix.len()], prefix)
}

/// Decides where a request for `path` with `method` (`GET` or `POST`) goes.
pub fn route(method: &str, path: &str) -> (routed: Result<Route, String>)
    ensures
        match (routed, route_of(method@ == "GET"@, method@ == "POST"@, path.spec_bytes())) {
            (Ok(r), Ok(s)) => r == s,
            (Err(e), Err(m)) => e@ == m,
            _ => false,
        },
{
    let get = crate::text::str_equal(method, "GET");
    let post = crate::text::str_equal(method, "POST");
    let p = path.as_bytes();
    let root: [u8; 1] = [0x2Fu8];
    let favicon: [u8; 12] = [0x2Fu8, 0x66u8, 0x61u8, 0x76u8, 0x69u8, 0x63u8, 0x6Fu8, 0x6Eu8, 0x2Eu8, 0x69u8, 0x63u8, 0x6Fu8];
    let frame: [u8; 6] = [0x2Fu8, 0x66u8, 0x72u8, 0x61u8, 0x6Du8, 0x65u8];
    let input: [u8; 6] = [0x2Fu8, 0x69u8, 0x6Eu8, 0x70u8, 0x75u8, 0x74u8];
    let generation: [u8; 18] = [
        0x2Fu8, 0x69u8, 0x6Eu8, 0x70u8, 0x75u8, 0x74u8, 0x3Fu8, 0x67u8, 0x65u8, 0x6Eu8, 0x65u8,
        0x72u8, 0x61u8, 0x74u8, 0x69u8, 0x6Fu8, 0x6Eu8, 0x3Du8,
    ];
    assert(root@ == seq![0x2Fu8]);
    assert(frame@ == frame_prefix());
    assert(input@ == input_target());
    assert(generation@ == generation_prefix());
    if get && crate::text::bytes_equal(p, &root) {
        return Ok(Route::Viewer);
    }
    if get && crate::text::bytes_equal(p, &favicon) {
        return Ok(Route::Favicon);
    }
    if get && has_byte_prefix(p, &frame) {
        let query = &p[6..p.len()];
        if query.len() > 0 && query[0] != 0x3Fu8 {
            return Ok(Route::NotFound);
        }
        return match parse_after(query) {
            Ok(after) => Ok(Route::Frame { after }),
            Err(message) => Err(message),
        };
    }
    let mut end: usize = 0;
    while end < p.len() && p[end] != 0x3Fu8
        invariant
            end <= p@.len(),
            forall|j: int| 0 <= j < end ==> p@[j] != 0x3Fu8,
        decreases p.len() - end,
    {
        end += 1;
    }
    proof {
        lemma_question_at(p@, 0);
        let q = question_at(p@, 0);
        if q < end {
            assert(p@[q] == 0x3Fu8);
        }
        if end < q {
            assert(p@[end as int] != 0x3Fu8);
        }
        assert(q == end);
    }
    if crate::text::bytes_equal(&p[0..end], &input) {
        if !post {
            return Ok(Route::InputMethodNotAllowed);
        }
        if has_byte_prefix(p, &generation) {
            return match parse_u64(&p[18..p.len()]) {
                Some(generation) => Ok(Route::Input { generation }),
                None => Ok(Route::InputWithoutGeneration),
            };
        }
        return Ok(Route::InputWithoutGeneration);
    }
    Ok(Route::NotFound)
}

/// The status line and plain-text body that answer an input's result.
pub open spec fn input_answer(result: InputResult) -> (Seq<char>, Seq<char>) {
    match result {
        InputResult::Accepted | InputResult::Ignored => ("204 No Content"@, ""@),
        InputResult::StaleGeneration => ("412 Precondition Failed"@, "input belongs to a previous game run\n"@),
        InputResult::Busy => ("409 Conflict"@, "another viewer currently controls input\n"@),
        InputResult::GameUnavailable => ("503 Service Unavailable"@, "game input is not connected\n"@),
    }
}

/// The status line and plain-text body that answer an input's result.
pub fn input_response(result: InputResult) -> (answer: (&'static str, &'static str))
    ensures
        (answer.0@, answer.1@) == input_answer(result),
{
    match result {
        InputResult::Accepted | InputResult::Ignored => ("204 No Content", ""),
        InputResult::StaleGeneration => ("412 Precondition Failed", "input belongs to a previous game run\n"),
        InputResult::Busy => ("409 Conflict", "another viewer currently controls input\n"),
        InputResult::GameUnavailable => ("503 Service Unavailable", "game input is not connected\n"),
    }
}

// ---------------------------------------------------------------------------------------------
// Answers

/// An HTTP answer: its status, its content type, its further headers in order, and its body.
pub struct Answer {
    pub status: String,
    pub content_type: String,
    pub headers: Vec<(String, String)>,
    pub body: Vec<u8>,
}

/// Headers as text and value pairs.
pub open spec fn headers_view(headers: Seq<(String, String)>) -> Seq<(Seq<char>, Seq<char>)> {
    headers.map_values(|h: (String, String)| (h.0@, h.1@))
}

/// Each header as `name: value` and a line break.
pub open spec fn header_lines(headers: Seq<(Seq<char>, Seq<char>)>) -> Seq<char>
    decreases headers.len(),
{
    if headers.len() == 0 {
        seq![]
    } else {
        header_lines(headers.drop_last()) + headers.last().0 + ": "@ + headers.last().1 + "\r\n"@
    }
}

/// The head of an answer: status line, content type, body length, `Connection: close`, the
/// further headers, and the blank line before the body.
pub open spec fn head_text(status: Seq<char>, content_type: Seq<char>, headers: Seq<(Seq<char>, Seq<char>)>, length: nat) -> Seq<
    char,
> {
    "HTTP/1.1 "@ + status + "\r\nContent-Type: "@ + content_type + "\r\nContent-Length: "@ + decimal(length)
        + "\r\nConnection: close\r\n"@ + header_lines(headers) + "\r\n"@
}

/// The head an answer is sent with.
pub fn answer_head(answer: &Answer) -> (head: String)
    requires
        answer.body@.len() <= u64::MAX,
    ensures
        head@ == head_text(
            answer.status@,
            answer.content_type@,
            headers_view(answer.headers@),
            answer.body@.len(),
        ),
{
    let mut head = owned("HTTP/1.1 ");
    push_str(&mut head, answer.status.as_str());
    push_str(&mut head, "\r\nContent-Type: ");
    push_str(&mut head, answer.content_type.as_str());
    push_str(&mut head, "\r\nContent-Length: ");
    push_decimal(&mut head, answer.body.len() as u64);
    push_str(&mut head, "\r\nConnection: close\r\n");
    let ghost start = head@;
    let mut k: usize = 0;
    assert(headers_view(answer.headers@).subrange(0, 0) =~= Seq::<(Seq<char>, Seq<char>)>::empty());
    while k < answer.headers.len()
        invariant
            k <= answer.headers@.len(),
            head@ == start + header_lines(headers_view(answer.headers@).subrange(0, k as int)),
        decreases answer.headers.len() - k,
    {
        let ghost all = headers_view(answer.headers@);
        assert(all.subrange(0, k + 1).drop_last() =~= all.subrange(0, k as int));
        push_str(&mut head, answer.headers[k].0.as_str());
        push_str(&mut head, ": ");
        push_str(&mut head, answer.headers[k].1.as_str());
        push_str(&mut head, "\r\n");
        k += 1;
    }
    assert(headers_view(answer.headers@).subrange(0, k as int) =~= headers_view(answer.headers@));
    push_str(&mut head, "\r\n");
    head
}

/// A plain-text answer.
fn text_answer(status: &str, headers: Vec<(String, String)>, body: &str) -> (answer: Answer)
    ensures
        answer.status@ == status@,
        answer.content_type@ == "text/plain"@,
        answer.headers@ == headers@,
        answer.body@ == body.spec_bytes(),
{
    let mut bytes: Vec<u8> = Vec::new();
    crate::text::extend_bytes(&mut bytes, body.as_bytes());
    Answer { status: owned(status), content_type: owned("text/plain"), headers, body: bytes }
}

/// The headers a frame answer carries: no caching, the viewer's state, and the run generation,
/// then for a frame its sequence number and its format.
pub open spec fn frame_headers(snapshot: FrameSnapshot) -> Seq<(Seq<char>, Seq<char>)> {
    let common = seq![
        ("Cache-Control"@, "no-store"@),
        ("X-Speck-State"@, wire_text(snapshot.state, snapshot.frame is Some)),
        ("X-Speck-Generation"@, decimal(snapshot.generation as nat)),
    ];
    match snapshot.frame {
        Some(f) => common + seq![
            ("X-Speck-Sequence"@, decimal(f.sequence as nat)),
            ("X-Speck-Width"@, "320"@),
            ("X-Speck-Height"@, "180"@),
            ("X-Speck-Format"@, "RGB8"@),
        ],
        None => common,
    }
}

fn header(name: &str, value: String) -> (h: (String, String))
    ensures
        h.0@ == name@,
        h.1 == value,
{
    (owned(name), value)
}

fn decimal_text(n: u64) -> (text: String)
    ensures
        text@ == decimal(n as nat),
{
    let mut text = String::new();
    push_decimal(&mut text, n);
    text
}

/// The answer to a frame request: the frame's pixels with `200 OK`, or `204 No Content` when
/// there is no newer frame, with the frame headers either way.
pub fn frame_answer(snapshot: FrameSnapshot) -> (answer: Answer)
    ensures
        answer.content_type@ == "application/octet-stream"@,
        headers_view(answer.headers@) == frame_headers(snapshot),
        match snapshot.frame {
            Some(f) => answer.status@ == "200 OK"@ && answer.body@ == f.pixels@,
            None => answer.status@ == "204 No Content"@ && answer.body@.len() == 0,
        },
{
    let available = snapshot.frame.is_some();
    let mut headers: Vec<(String, String)> = Vec::new();
    headers.push(header("Cache-Control", owned("no-store")));
    headers.push(header("X-Speck-State", owned(snapshot.state.wire(available))));
    headers.push(header("X-Speck-Generation", decimal_text(snapshot.generation)));
    match snapshot.frame {
        Some(frame) => {
            headers.push(header("X-Speck-Sequence", decimal_text(frame.sequence)));
            headers.push(header("X-Speck-Width", owned("320")));
            headers.push(header("X-Speck-Height", owned("180")));
            headers.push(header("X-Speck-Format", owned("RGB8")));
            assert(headers_view(headers@) =~= frame_headers(snapshot));
            Answer {
                status: owned("200 OK"),
                content_type: owned("application/octet-stream"),
                headers,
                body: frame.pixels,
            }
        },
        None => {
            assert(headers_view(headers@) =~= frame_headers(snapshot));
            Answer {
                status: owned("204 No Content"),
                content_type: owned("application/octet-stream"),
                headers,
                body: Vec::new(),
            }
        },
    }
}

/// The answer to a request that could not be read or routed: `400 Bad Request` with the
/// message on a line of its own.
pub fn bad_request(message: &str) -> (answer: Answer)
    ensures
        answer.status@ == "400 Bad Request"@,
        answer.content_type@ == "text/plain"@,
        answer.headers@.len() == 0,
        answer.body@ == message.spec_bytes() + seq![0x0Au8],
{
    let mut answer = text_answer("400 Bad Request", Vec::new(), message);
    answer.body.push(0x0Au8);
    answer
}

/// The answer for each route that needs neither a frame nor the input control: `None` for
/// `Frame` and `Input`.
pub fn fixed_answer(route: Route) -> (answer: Option<Answer>)
    ensures
        match route {
            Route::Favicon => answer matches Some(a) && a.status@ == "204 No Content"@ && a.content_type@
                == "text/plain"@ && a.headers@.len() == 0 && a.body@.len() == 0,
            Route::NotFound => answer matches Some(a) && a.status@ == "404 Not Found"@ && a.content_type@
                == "text/plain"@ && a.headers@.len() == 0 && a.body@ == vstd::utf8::encode_utf8("not found\n"@),
            Route::InputMethodNotAllowed => answer matches Some(a) && a.status@ == "405 Method Not Allowed"@
                && a.content_type@ == "text/plain"@ && headers_view(a.headers@) == seq![("Allow"@, "POST"@)]
                && a.body@ == vstd::utf8::encode_utf8("input requires POST\n"@),
            Route::InputWithoutGeneration => answer matches Some(a) && a.status@ == "400 Bad Request"@
                && a.content_type@ == "text/plain"@ && a.headers@.len() == 0 && a.body@
                == vstd::utf8::encode_utf8("input requires a run generation\n"@),
            _ => answer is None,
        },
{
    match route {
        Route::Favicon => {
            let answer = text_answer("204 No Content", Vec::new(), "");
            proof {
                reveal_strlit("");
                assert(""@ =~= Seq::<char>::empty());
            }
            Some(answer)
        },
        Route::NotFound => Some(text_answer("404 Not Found", Vec::new(), "not found\n")),
        Route::InputMethodNotAllowed => {
            let mut headers: Vec<(String, String)> = Vec::new();
            headers.push(header("Allow", owned("POST")));
            let answer = text_answer("405 Method Not Allowed", headers, "input requires POST\n");
            assert(headers_view(answer.headers@) =~= seq![("Allow"@, "POST"@)]);
            Some(answer)
        },
        Route::InputWithoutGeneration => Some(text_answer("400 Bad Request", Vec::new(), "input requires a run generation\n")),
        _ => None,
    }
}

/// The answer to an input, by its result.
pub fn input_answer_for(result: InputResult) -> (answer: Answer)
    ensures
        answer.status@ == input_answer(result).0,
        answer.content_type@ == "text/plain"@,
        answer.headers@.len() == 0,
        answer.body@ == vstd::utf8::encode_utf8(input_answer(result).1),
{
    let (status, body) = input_response(result);
    text_answer(status, Vec::new(), body)
}

/// What answering `POST /input?generation=N` does next: answer at once, or send a control
/// message to the game and answer with `input_answer_for` of what `finish_send` gives.
pub enum InputAnswer {
    Answer(Answer),
    Send(ControlMessage),
}

/// Answers an input request of run `generation` with `body`, received at `now`: a body that
/// `parse_browser_input` refuses is answered `400 Bad Request` with the reason, and the control
/// state is left as it was; otherwise the input goes to `apply`, and its result is answered as
/// `input_answer_for` says, or its control message is handed back to be sent.
pub fn answer_input_request(controls: &mut InputControl, generation: u64, body: &[u8], now: u64) -> (next: InputAnswer)
    ensures
        match browser_input_parse(body@) {
            Err(m) => {
                &&& final(controls)@ == old(controls)@
                &&& next matches InputAnswer::Answer(a) && a.status@ == "400 Bad Request"@ && a.content_type@
                    == "text/plain"@ && a.headers@.len() == 0 && a.body@ == vstd::utf8::encode_utf8(m) + seq![0x0Au8]
            },
            Ok(input) => {
                let (step, state) = apply_outcome(old(controls)@, input, generation, now);
                &&& final(controls)@ == state
                &&& match step {
                    InputStep::Done(r) => next matches InputAnswer::Answer(a) && a.status@ == input_answer(r).0
                        && a.content_type@ == "text/plain"@ && a.headers@.len() == 0 && a.body@
                        == vstd::utf8::encode_utf8(input_answer(r).1),
                    InputStep::Send(m) => next == InputAnswer::Send(m),
                }
            },
        },
{
    match super::protocol::parse_browser_input(body) {
        Err(error) => InputAnswer::Answer(bad_request(error.message())),
        Ok(input) => match controls.apply(&input, generation, now) {
            InputStep::Done(result) => InputAnswer::Answer(input_answer_for(result)),
            InputStep::Send(message) => InputAnswer::Send(message),
        },
    }
}


/// What answering a request does next: answer at once, serve the viewer page, wait for the
/// first frame newer than `after` and answer with `frame_answer`, or answer an input of run
/// `generation` with `answer_input_request`.
pub enum HttpStep {
    Answer(Answer),
    Viewer,
    AwaitFrame { after: u64 },
    Input { generation: u64 },
}

/// Decides how a request for `path` with `method` is answered: a path the router refuses gets
/// `400 Bad Request` with the reason; the viewer page, a frame and an input are handed back to
/// be served; every other route gets its fixed answer.
pub fn http_step(method: &str, path: &str) -> (step: HttpStep)
    ensures
        match route_of(method@ == "GET"@, method@ == "POST"@, path.spec_bytes()) {
            Err(m) => step matches HttpStep::Answer(a) && a.status@ == "400 Bad Request"@ && a.content_type@
                == "text/plain"@ && a.headers@.len() == 0 && a.body@ == vstd::utf8::encode_utf8(m) + seq![0x0Au8],
            Ok(Route::Viewer) => step is Viewer,
            Ok(Route::Frame { after }) => step == HttpStep::AwaitFrame { after },
            Ok(Route::Input { generation }) => step == HttpStep::Input { generation },
            Ok(Route::Favicon) => step matches HttpStep::Answer(a) && a.status@ == "204 No Content"@ && a.content_type@
                == "text/plain"@ && a.headers@.len() == 0 && a.body@.len() == 0,
            Ok(Route::NotFound) => step matches HttpStep::Answer(a) && a.status@ == "404 Not Found"@ && a.content_type@
                == "text/plain"@ && a.headers@.len() == 0 && a.body@ == vstd::utf8::encode_utf8("not found\n"@),
            Ok(Route::InputMethodNotAllowed) => step matches HttpStep::Answer(a) && a.status@ == "405 Method Not Allowed"@
                && a.content_type@ == "text/plain"@ && headers_view(a.headers@) == seq![("Allow"@, "POST"@)]
                && a.body@ == vstd::utf8::encode_utf8("input requires POST\n"@),
            Ok(Route::InputWithoutGeneration) => step matches HttpStep::Answer(a) && a.status@ == "400 Bad Request"@
                && a.content_type@ == "text/plain"@ && a.headers@.len() == 0 && a.body@
                == vstd::utf8::encode_utf8("input requires a run generation\n"@),
        },
{
    match route(method, path) {
        Err(message) => HttpStep::Answer(bad_request(message.as_str())),
        Ok(Route::Viewer) => HttpStep::Viewer,
        Ok(Route::Frame { after }) => HttpStep::AwaitFrame { after },
        Ok(Route::Input { generation }) => HttpStep::Input { generation },
        Ok(r) => match fixed_answer(r) {
            Some(answer) => HttpStep::Answer(answer),
            None => HttpStep::Viewer,
        },
    }
}

} // verus!
