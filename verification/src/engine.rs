//! The command dispatcher: the top-level protocol engine.
//!
//! The engine consumes one command line at a time and yields the actions the
//! surrounding program performs: protocol lines to write, the log sink to
//! reconfigure, a document to play, or a fatal fault. Multi-line sub-dialogs
//! (audio settings, log level, prosody settings, the speak payload) are modes
//! the engine stays in until the lone-dot terminator line arrives. A fault
//! inside a sub-dialog is remembered and reported when the dialog ends, as a
//! continuation line with the detail and a terminating error line; the prior
//! settings stay in effect. Playback itself runs on the playback machine; the
//! engine hands out the flattened document and the terminal status lines.
use vstd::prelude::*;

verus! {

use vstd::string::is_ascii;
use crate::bytes::{
    lit,
    ascii_lit,
    line_is,
    starts_with,
    subrange_vec,
    copy_vec,
    push_all,
    u64_dec,
    dec_digits,
    spec_parse_i64,
    spec_parse_u64,
    parse_i64,
    parse_u64,
};
use crate::prosody::{
    spec_pitch_factor,
    spec_rate_factor,
    spec_volume_factor,
    pitch_factor,
    rate_factor,
    volume_factor,
};
use crate::voice::{
    Registry,
    VoiceInput,
    VoiceEntryV,
    input_views,
    spec_discover,
    find_name,
    spec_list_lines,
    line_views,
};
use crate::markup::{
    Item,
    ItemV,
    item_views,
    parse_document,
    spec_parse_document,
    flatten,
    flatten_nodes,
    find_at,
};
use crate::player::{Outcome, Step, StepV};

/// One thing the surrounding program does on the engine's behalf.
pub enum Action {
    /// Write this line to the output channel.
    Send(Vec<u8>),
    /// Set the log filter to this level, one through five, rising from errors
    /// only to full tracing.
    SetLogLevel(u8),
    /// Swap the log sink to one that also writes the file at this path.
    EnableDebug(Vec<u8>),
    /// Log this detail at warning level.
    LogWarn(Vec<u8>),
    /// Run the playback machine over these playable steps.
    Play(Vec<Item>),
    /// The control channel is unusable: report this and terminate.
    Fatal(Vec<u8>),
}

/// The mathematical shadow of an action.
pub enum ActionV {
    Send(Seq<u8>),
    SetLogLevel(u8),
    EnableDebug(Seq<u8>),
    LogWarn(Seq<u8>),
    Play(Seq<ItemV>),
    Fatal(Seq<u8>),
}

impl View for Action {
    type V = ActionV;

    open spec fn view(&self) -> ActionV {
        match self {
            Action::Send(l) => ActionV::Send(l@),
            Action::SetLogLevel(v) => ActionV::SetLogLevel(*v),
            Action::EnableDebug(p) => ActionV::EnableDebug(p@),
            Action::LogWarn(w) => ActionV::LogWarn(w@),
            Action::Play(items) => ActionV::Play(item_views(items@)),
            Action::Fatal(m) => ActionV::Fatal(m@),
        }
    }
}

/// The views of a sequence of actions.
pub open spec fn action_views(s: Seq<Action>) -> Seq<ActionV> {
    Seq::new(s.len(), |i: int| s[i]@)
}

/// Lines wrapped as send actions, in order.
pub open spec fn sends_of(ls: Seq<Seq<u8>>) -> Seq<ActionV> {
    Seq::new(ls.len(), |i: int| ActionV::Send(ls[i]))
}

/// Where the dispatcher stands between lines.
pub enum Mode {
    /// Nothing received yet: the host must open with its init command.
    AwaitInit,
    /// Between commands.
    Idle,
    /// Inside the audio-settings sub-dialog.
    Audio { seen: bool, bad: bool },
    /// Inside the log-level sub-dialog; a remembered fault line, if any.
    Log { err: Option<Vec<u8>> },
    /// Inside the prosody-settings sub-dialog; a remembered fault line.
    Prosody { err: Option<Vec<u8>> },
    /// Collecting the speak payload until the lone dot.
    Collect { buf: Vec<u8> },
}

/// The mathematical shadow of a dispatcher mode.
pub enum ModeV {
    AwaitInit,
    Idle,
    Audio { seen: bool, bad: bool },
    Log { err: Option<Seq<u8>> },
    Prosody { err: Option<Seq<u8>> },
    Collect { buf: Seq<u8> },
}

impl View for Mode {
    type V = ModeV;

    open spec fn view(&self) -> ModeV {
        match self {
            Mode::AwaitInit => ModeV::AwaitInit,
            Mode::Idle => ModeV::Idle,
            Mode::Audio { seen, bad } => ModeV::Audio { seen: *seen, bad: *bad },
            Mode::Log { err } => ModeV::Log {
                err: match err {
                    Some(m) => Some(m@),
                    None => None,
                },
            },
            Mode::Prosody { err } => ModeV::Prosody {
                err: match err {
                    Some(m) => Some(m@),
                    None => None,
                },
            },
            Mode::Collect { buf } => ModeV::Collect { buf: buf@ },
        }
    }
}

/// The protocol engine: the voice registry, the selected voice, the three
/// prosody factors in thousandths, and the dispatcher mode.
pub struct Engine {
    pub reg: Registry,
    pub voice: usize,
    pub pitch: i64,
    pub rate: i64,
    pub volume: i64,
    pub mode: Mode,
}

/// The mathematical shadow of the engine.
pub struct EngineV {
    pub reg: Seq<VoiceEntryV>,
    pub voice: int,
    pub pitch: int,
    pub rate: int,
    pub volume: int,
    pub mode: ModeV,
}

impl View for Engine {
    type V = EngineV;

    open spec fn view(&self) -> EngineV {
        EngineV {
            reg: self.reg@,
            voice: self.voice as int,
            pitch: self.pitch as int,
            rate: self.rate as int,
            volume: self.volume as int,
            mode: self.mode@,
        }
    }
}

impl EngineV {
    /// A valid engine: the registry holds at least one voice and the selected
    /// voice points into it.
    pub open spec fn wf(self) -> bool {
        0 <= self.voice < self.reg.len()
    }
}

/// Keeps the first remembered fault of a sub-dialog.
pub open spec fn or_first(err: Option<Seq<u8>>, m: Seq<u8>) -> Option<Seq<u8>> {
    match err {
        Some(_) => err,
        None => Some(m),
    }
}

/// The init greeting: the host's opening command is acknowledged with the two
/// readiness lines; anything else makes the channel unusable.
pub open spec fn spec_await_init(e: EngineV, l: Seq<u8>) -> (EngineV, Seq<ActionV>) {
    if l == lit("INIT"@) {
        (
            EngineV { mode: ModeV::Idle, ..e },
            sends_of(seq![lit("299-Everything ok so far"@), lit("299 OK LOADED SUCCESSFULLY"@)]),
        )
    } else {
        (e, seq![ActionV::Fatal(lit("Server did not start with INIT"@))])
    }
}

/// One command line between dialogs: each known command is acknowledged and
/// opens its dialog or answers at once; a debug-enable command carries the log
/// path after its prefix; a stray stop with no playback running does nothing;
/// anything else is an unknown command.
pub open spec fn spec_idle(e: EngineV, l: Seq<u8>) -> (EngineV, Seq<ActionV>) {
    if l == lit("AUDIO"@) {
        (
            EngineV { mode: ModeV::Audio { seen: false, bad: false }, ..e },
            sends_of(seq![lit("207 OK RECEIVING AUDIO SETTINGS"@)]),
        )
    } else if l == lit("LOGLEVEL"@) {
        (
            EngineV { mode: ModeV::Log { err: None }, ..e },
            sends_of(seq![lit("207 OK RECEIVING LOGLEVEL SETTINGS"@)]),
        )
    } else if l == lit("LIST VOICES"@) {
        (e, sends_of(spec_list_lines(e.reg).push(lit("200 OK VOICE LIST SENT"@))))
    } else if l == lit("SET"@) {
        (
            EngineV { mode: ModeV::Prosody { err: None }, ..e },
            sends_of(seq![lit("203 OK RECEIVING SETTINGS"@)]),
        )
    } else if l == lit("SPEAK"@) {
        (
            EngineV { mode: ModeV::Collect { buf: Seq::empty() }, ..e },
            sends_of(seq![lit("202 OK RECEIVING MESSAGE"@)]),
        )
    } else if l.len() >= lit("DEBUG ON "@).len() && l.take(lit("DEBUG ON "@).len() as int) == lit(
        "DEBUG ON "@,
    ) {
        (
            e,
            seq![
                ActionV::EnableDebug(l.skip(lit("DEBUG ON "@).len() as int)),
                ActionV::Send(lit("200 OK DEBUGGING ON"@)),
            ],
        )
    } else if l == lit("STOP"@) {
        (e, Seq::empty())
    } else {
        (e, sends_of(seq![lit("300 ERR UNKNOWN COMMAND"@)]))
    }
}

/// One line of the audio sub-dialog: the host must name this module's own
/// audio pipeline, once, and close the dialog; any other content ends the
/// dialog with an error and the prior state stands.
pub open spec fn spec_audio(e: EngineV, seen: bool, bad: bool, l: Seq<u8>) -> (
    EngineV,
    Seq<ActionV>,
) {
    if l == lit("."@) {
        if seen && !bad {
            (EngineV { mode: ModeV::Idle, ..e }, sends_of(seq![lit("203 OK AUDIO INITIALIZED"@)]))
        } else {
            (
                EngineV { mode: ModeV::Idle, ..e },
                sends_of(
                    seq![
                        lit("300-Audio output method must be server"@),
                        lit("300 ERR INVALID AUDIO"@),
                    ],
                ),
            )
        }
    } else if l == lit("audio_output_method=server"@) && !seen {
        (EngineV { mode: ModeV::Audio { seen: true, bad }, ..e }, Seq::empty())
    } else {
        (EngineV { mode: ModeV::Audio { seen, bad: true }, ..e }, Seq::empty())
    }
}

/// One line of the log-level sub-dialog: a log-level key with a value of one
/// through five reconfigures the filter at once; an unknown key is warned and
/// ignored; a malformed line or an invalid value is the dialog's fault.
pub open spec fn spec_log(e: EngineV, err: Option<Seq<u8>>, l: Seq<u8>) -> (EngineV, Seq<ActionV>) {
    if l == lit("."@) {
        match err {
            None => (EngineV { mode: ModeV::Idle, ..e }, sends_of(seq![lit("203 OK LOGLEVEL SET"@)])),
            Some(m) => (
                EngineV { mode: ModeV::Idle, ..e },
                sends_of(seq![m, lit("300 ERR INVALID LOGLEVEL"@)]),
            ),
        }
    } else {
        let p = find_at(l, 0, 0x3d);
        if p >= l.len() {
            (
                EngineV {
                    mode: ModeV::Log { err: or_first(err, lit("300-Malformed setting"@)) },
                    ..e
                },
                Seq::empty(),
            )
        } else {
            let key = l.take(p);
            let value = l.skip(p + 1);
            if key == lit("log_level"@) {
                match spec_parse_u64(value) {
                    Some(v) => {
                        if 1 <= v <= 5 {
                            (e, seq![ActionV::SetLogLevel(v as u8)])
                        } else {
                            (
                                EngineV {
                                    mode: ModeV::Log {
                                        err: or_first(err, lit("300-Invalid value for log_level"@)),
                                    },
                                    ..e
                                },
                                Seq::empty(),
                            )
                        }
                    },
                    None => (
                        EngineV {
                            mode: ModeV::Log {
                                err: or_first(err, lit("300-Invalid value for log_level"@)),
                            },
                            ..e
                        },
                        Seq::empty(),
                    ),
                }
            } else {
                (e, seq![ActionV::LogWarn(key)])
            }
        }
    }
}

/// One line of the prosody sub-dialog: pitch and rate percentages become
/// factors through their piecewise-linear mappings, volume converts directly,
/// a known voice name selects that voice and an unknown one is warned and
/// ignored; a malformed line or an unparsable value is the dialog's fault and
/// the prior value stays.
pub open spec fn spec_set(e: EngineV, err: Option<Seq<u8>>, l: Seq<u8>) -> (EngineV, Seq<ActionV>) {
    if l == lit("."@) {
        match err {
            None => (
                EngineV { mode: ModeV::Idle, ..e },
                sends_of(seq![lit("203 OK SETTINGS RECEIVED"@)]),
            ),
            Some(m) => (
                EngineV { mode: ModeV::Idle, ..e },
                sends_of(seq![m, lit("300 ERR INVALID SETTINGS"@)]),
            ),
        }
    } else {
        let p = find_at(l, 0, 0x3d);
        if p >= l.len() {
            (
                EngineV {
                    mode: ModeV::Prosody { err: or_first(err, lit("300-Malformed setting"@)) },
                    ..e
                },
                Seq::empty(),
            )
        } else {
            let key = l.take(p);
            let value = l.skip(p + 1);
            if key == lit("pitch"@) {
                match spec_parse_i64(value) {
                    Some(v) => (EngineV { pitch: spec_pitch_factor(v as int), ..e }, Seq::empty()),
                    None => (
                        EngineV {
                            mode: ModeV::Prosody {
                                err: or_first(err, lit("300-Invalid value for pitch"@)),
                            },
                            ..e
                        },
                        Seq::empty(),
                    ),
                }
            } else if key == lit("rate"@) {
                match spec_parse_i64(value) {
                    Some(v) => (EngineV { rate: spec_rate_factor(v as int), ..e }, Seq::empty()),
                    None => (
                        EngineV {
                            mode: ModeV::Prosody {
                                err: or_first(err, lit("300-Invalid value for rate"@)),
                            },
                            ..e
                        },
                        Seq::empty(),
                    ),
                }
            } else if key == lit("volume"@) {
                match spec_parse_i64(value) {
                    Some(v) => (
                        EngineV { volume: spec_volume_factor(v as int), ..e },
                        Seq::empty(),
                    ),
                    None => (
                        EngineV {
                            mode: ModeV::Prosody {
                                err: or_first(err, lit("300-Invalid value for volume"@)),
                            },
                            ..e
                        },
                        Seq::empty(),
                    ),
                }
            } else if key == lit("synthesis_voice"@) {
                match find_name(e.reg, value) {
                    Some(j) => (EngineV { voice: j, ..e }, Seq::empty()),
                    None => (e, seq![ActionV::LogWarn(value)]),
                }
            } else {
                (e, Seq::empty())
            }
        }
    }
}

/// One line of the speak payload: the lone dot ends collection and the buffer
/// is parsed — a parse fault is reported and the command aborted, a parsed
/// document is announced and handed over flattened for playback; any other
/// line joins the buffer with its newline.
pub open spec fn spec_collect(e: EngineV, buf: Seq<u8>, l: Seq<u8>) -> (EngineV, Seq<ActionV>) {
    if l == lit("."@) {
        match spec_parse_document(buf) {
            Ok(ns) => (
                EngineV { mode: ModeV::Idle, ..e },
                seq![
                    ActionV::Send(lit("200 OK SPEAKING"@)),
                    ActionV::Send(lit("701 BEGIN"@)),
                    ActionV::Play(flatten_nodes(ns)),
                ],
            ),
            Err(p) => (
                EngineV { mode: ModeV::Idle, ..e },
                sends_of(
                    seq![
                        lit("703-Document parse error at byte "@) + dec_digits(p as nat),
                        lit("703 STOP"@),
                    ],
                ),
            ),
        }
    } else {
        (EngineV { mode: ModeV::Collect { buf: buf + l + seq![0x0au8] }, ..e }, Seq::empty())
    }
}

/// What one incoming line does to the engine, and the actions it yields.
pub open spec fn spec_handle(e: EngineV, l: Seq<u8>) -> (EngineV, Seq<ActionV>) {
    match e.mode {
        ModeV::AwaitInit => spec_await_init(e, l),
        ModeV::Idle => spec_idle(e, l),
        ModeV::Audio { seen, bad } => spec_audio(e, seen, bad, l),
        ModeV::Log { err } => spec_log(e, err, l),
        ModeV::Prosody { err } => spec_set(e, err, l),
        ModeV::Collect { buf } => spec_collect(e, buf, l),
    }
}

fn sends1(a: Vec<u8>) -> (r: Vec<Action>)
    ensures
        action_views(r@) == sends_of(seq![a@]),
{
    let ghost av = a@;
    let mut r: Vec<Action> = Vec::new();
    r.push(Action::Send(a));
    proof {
        assert(action_views(r@) =~= sends_of(seq![av]));
    }
    r
}

fn sends2(a: Vec<u8>, b: Vec<u8>) -> (r: Vec<Action>)
    ensures
        action_views(r@) == sends_of(seq![a@, b@]),
{
    let ghost av = a@;
    let ghost bv = b@;
    let mut r: Vec<Action> = Vec::new();
    r.push(Action::Send(a));
    r.push(Action::Send(b));
    proof {
        assert(action_views(r@) =~= sends_of(seq![av, bv]));
    }
    r
}

fn no_acts() -> (r: Vec<Action>)
    ensures
        action_views(r@) == Seq::<ActionV>::empty(),
{
    let r: Vec<Action> = Vec::new();
    proof {
        assert(action_views(r@) =~= Seq::<ActionV>::empty());
    }
    r
}

impl Engine {
    /// Builds the engine over the discovered voices; the first voice starts
    /// selected and all three prosody factors at the unit. There is nothing to
    /// run without a voice, so an empty discovery yields no engine.
    pub fn new(inputs: &Vec<VoiceInput>) -> (r: Option<Engine>)
        ensures
            match r {
                Some(e) => e@.wf() && e@ == (EngineV {
                    reg: spec_discover(input_views(inputs@)),
                    voice: 0,
                    pitch: 1000,
                    rate: 1000,
                    volume: 1000,
                    mode: ModeV::AwaitInit,
                }),
                None => spec_discover(input_views(inputs@)).len() == 0,
            },
    {
        let reg = Registry::discover(inputs);
        if reg.entries.len() == 0 {
            return None;
        }
        Some(Engine { reg, voice: 0, pitch: 1000, rate: 1000, volume: 1000, mode: Mode::AwaitInit })
    }

    fn do_await_init(&mut self, line: &Vec<u8>) -> (r: Vec<Action>)
        requires
            old(self)@.wf(),
            old(self)@.mode == ModeV::AwaitInit,
        ensures
            (final (self)@, action_views(r@)) == spec_await_init(old(self)@, line@),
            final (self)@.wf(),
    {
        proof {
            reveal_strlit("INIT");
            reveal_strlit("299-Everything ok so far");
            reveal_strlit("299 OK LOADED SUCCESSFULLY");
            reveal_strlit("Server did not start with INIT");
            assert(is_ascii("INIT"));
            assert(is_ascii("299-Everything ok so far"));
            assert(is_ascii("299 OK LOADED SUCCESSFULLY"));
            assert(is_ascii("Server did not start with INIT"));
        }
        if line_is(line, "INIT") {
            self.mode = Mode::Idle;
            sends2(
                ascii_lit("299-Everything ok so far"),
                ascii_lit("299 OK LOADED SUCCESSFULLY"),
            )
        } else {
            let mut r: Vec<Action> = Vec::new();
            r.push(Action::Fatal(ascii_lit("Server did not start with INIT")));
            proof {
                assert(action_views(r@) =~= seq![
                    ActionV::Fatal(lit("Server did not start with INIT"@)),
                ]);
            }
            r
        }
    }

    fn do_idle(&mut self, line: &Vec<u8>) -> (r: Vec<Action>)
        requires
            old(self)@.wf(),
            old(self)@.mode == ModeV::Idle,
        ensures
            (final (self)@, action_views(r@)) == spec_idle(old(self)@, line@),
            final (self)@.wf(),
    {
        proof {
            reveal_strlit("AUDIO");
            reveal_strlit("LOGLEVEL");
            reveal_strlit("LIST VOICES");
            reveal_strlit("SET");
            reveal_strlit("SPEAK");
            reveal_strlit("DEBUG ON ");
            reveal_strlit("STOP");
            reveal_strlit("207 OK RECEIVING AUDIO SETTINGS");
            reveal_strlit("207 OK RECEIVING LOGLEVEL SETTINGS");
            reveal_strlit("200 OK VOICE LIST SENT");
            reveal_strlit("203 OK RECEIVING SETTINGS");
            reveal_strlit("202 OK RECEIVING MESSAGE");
            reveal_strlit("200 OK DEBUGGING ON");
            reveal_strlit("300 ERR UNKNOWN COMMAND");
            assert(is_ascii("AUDIO"));
            assert(is_ascii("LOGLEVEL"));
            assert(is_ascii("LIST VOICES"));
            assert(is_ascii("SET"));
            assert(is_ascii("SPEAK"));
            assert(is_ascii("DEBUG ON "));
            assert(is_ascii("STOP"));
            assert(is_ascii("207 OK RECEIVING AUDIO SETTINGS"));
            assert(is_ascii("207 OK RECEIVING LOGLEVEL SETTINGS"));
            assert(is_ascii("200 OK VOICE LIST SENT"));
            assert(is_ascii("203 OK RECEIVING SETTINGS"));
            assert(is_ascii("202 OK RECEIVING MESSAGE"));
            assert(is_ascii("200 OK DEBUGGING ON"));
            assert(is_ascii("300 ERR UNKNOWN COMMAND"));
        }
        if line_is(line, "AUDIO") {
            self.mode = Mode::Audio { seen: false, bad: false };
            sends1(ascii_lit("207 OK RECEIVING AUDIO SETTINGS"))
        } else if line_is(line, "LOGLEVEL") {
            self.mode = Mode::Log { err: None };
            sends1(ascii_lit("207 OK RECEIVING LOGLEVEL SETTINGS"))
        } else if line_is(line, "LIST VOICES") {
            let lines = self.reg.list_lines();
            let n = lines.len();
            let mut acts: Vec<Action> = Vec::new();
            let mut i: usize = 0;
            while i < n
                invariant
                    n == lines@.len(),
                    i <= n,
                    action_views(acts@) == sends_of(line_views(lines@).take(i as int)),
                decreases n - i,
            {
                let cv = copy_vec(&lines[i]);
                let a = Action::Send(cv);
                let ghost ga = a;
                let ghost prev = acts@;
                proof {
                    assert(ga@ == ActionV::Send(lines@[i as int]@));
                    assert(action_views(prev) == sends_of(line_views(lines@).take(i as int)));
                    assert(action_views(prev).len() == prev.len());
                    assert(sends_of(line_views(lines@).take(i as int)).len() == i);
                    assert(prev.len() == i);
                }
                acts.push(a);
                proof {
                    assert(acts@ == prev.push(ga));
                    let want = sends_of(line_views(lines@).take(i + 1 as int));
                    assert forall|j: int| 0 <= j < acts@.len() implies action_views(acts@)[j]
                        == want[j] by {
                        if j == i {
                            assert(acts@[j] == ga);
                        } else {
                            assert(acts@[j] == prev[j]);
                            assert(action_views(prev)[j] == sends_of(
                                line_views(lines@).take(i as int),
                            )[j]);
                        }
                    }
                    assert(action_views(acts@) =~= want);
                }
                i += 1;
            }
            let term = Action::Send(ascii_lit("200 OK VOICE LIST SENT"));
            let ghost gt = term;
            let ghost prev = acts@;
            proof {
                assert(line_views(lines@).take(n as int) =~= line_views(lines@));
                assert(gt@ == ActionV::Send(lit("200 OK VOICE LIST SENT"@)));
                assert(action_views(prev) == sends_of(line_views(lines@)));
                assert(action_views(prev).len() == prev.len());
                assert(sends_of(line_views(lines@)).len() == n);
                assert(prev.len() == n);
            }
            acts.push(term);
            proof {
                assert(acts@ == prev.push(gt));
                let want = sends_of(
                    spec_list_lines(self.reg@).push(lit("200 OK VOICE LIST SENT"@)),
                );
                assert forall|j: int| 0 <= j < acts@.len() implies action_views(acts@)[j]
                    == want[j] by {
                    if j == n {
                        assert(acts@[j] == gt);
                    } else {
                        assert(acts@[j] == prev[j]);
                        assert(action_views(prev)[j] == sends_of(line_views(lines@))[j]);
                    }
                }
                assert(action_views(acts@) =~= want);
            }
            acts
        } else if line_is(line, "SET") {
            self.mode = Mode::Prosody { err: None };
            sends1(ascii_lit("203 OK RECEIVING SETTINGS"))
        } else if line_is(line, "SPEAK") {
            self.mode = Mode::Collect { buf: Vec::new() };
            sends1(ascii_lit("202 OK RECEIVING MESSAGE"))
        } else if starts_with(line, "DEBUG ON ") {
            let path = subrange_vec(line, 9, line.len());
            let ghost pv = path@;
            proof {
                assert(pv =~= line@.skip(lit("DEBUG ON "@).len() as int));
            }
            let mut r: Vec<Action> = Vec::new();
            r.push(Action::EnableDebug(path));
            r.push(Action::Send(ascii_lit("200 OK DEBUGGING ON")));
            proof {
                assert(action_views(r@) =~= seq![
                    ActionV::EnableDebug(line@.skip(lit("DEBUG ON "@).len() as int)),
                    ActionV::Send(lit("200 OK DEBUGGING ON"@)),
                ]);
            }
            r
        } else if line_is(line, "STOP") {
            no_acts()
        } else {
            sends1(ascii_lit("300 ERR UNKNOWN COMMAND"))
        }
    }

    fn do_audio(&mut self, seen: bool, bad: bool, line: &Vec<u8>) -> (r: Vec<Action>)
        requires
            old(self)@.wf(),
            old(self)@.mode == (ModeV::Audio { seen, bad }),
        ensures
            (final (self)@, action_views(r@)) == spec_audio(old(self)@, seen, bad, line@),
            final (self)@.wf(),
    {
        proof {
            reveal_strlit(".");
            reveal_strlit("audio_output_method=server");
            reveal_strlit("203 OK AUDIO INITIALIZED");
            reveal_strlit("300-Audio output method must be server");
            reveal_strlit("300 ERR INVALID AUDIO");
            assert(is_ascii("."));
            assert(is_ascii("audio_output_method=server"));
            assert(is_ascii("203 OK AUDIO INITIALIZED"));
            assert(is_ascii("300-Audio output method must be server"));
            assert(is_ascii("300 ERR INVALID AUDIO"));
        }
        if line_is(line, ".") {
            self.mode = Mode::Idle;
            if seen && !bad {
                sends1(ascii_lit("203 OK AUDIO INITIALIZED"))
            } else {
                sends2(
                    ascii_lit("300-Audio output method must be server"),
                    ascii_lit("300 ERR INVALID AUDIO"),
                )
            }
        } else if line_is(line, "audio_output_method=server") && !seen {
            self.mode = Mode::Audio { seen: true, bad };
            no_acts()
        } else {
            self.mode = Mode::Audio { seen, bad: true };
            no_acts()
        }
    }

    fn do_log(&mut self, err: Option<Vec<u8>>, line: &Vec<u8>) -> (r: Vec<Action>)
        requires
            old(self)@.wf(),
            old(self)@.mode == (ModeV::Log {
                err: match err {
                    Some(m) => Some(m@),
                    None => None,
                },
            }),
        ensures
            (final (self)@, action_views(r@)) == spec_log(
                old(self)@,
                match err {
                    Some(m) => Some(m@),
                    None => None,
                },
                line@,
            ),
            final (self)@.wf(),
    {
        proof {
            reveal_strlit(".");
            reveal_strlit("log_level");
            reveal_strlit("203 OK LOGLEVEL SET");
            reveal_strlit("300 ERR INVALID LOGLEVEL");
            reveal_strlit("300-Malformed setting");
            reveal_strlit("300-Invalid value for log_level");
            assert(is_ascii("."));
            assert(is_ascii("log_level"));
            assert(is_ascii("203 OK LOGLEVEL SET"));
            assert(is_ascii("300 ERR INVALID LOGLEVEL"));
            assert(is_ascii("300-Malformed setting"));
            assert(is_ascii("300-Invalid value for log_level"));
        }
        if line_is(line, ".") {
            self.mode = Mode::Idle;
            match err {
                None => sends1(ascii_lit("203 OK LOGLEVEL SET")),
                Some(m) => sends2(m, ascii_lit("300 ERR INVALID LOGLEVEL")),
            }
        } else {
            let p = crate::markup::find_at_vec(line, 0, 0x3d);
            if p >= line.len() {
                self.mode = Mode::Log {
                    err: match err {
                        Some(m) => Some(m),
                        None => Some(ascii_lit("300-Malformed setting")),
                    },
                };
                no_acts()
            } else {
                let key = subrange_vec(line, 0, p);
                let value = subrange_vec(line, p + 1, line.len());
                proof {
                    assert(key@ =~= line@.take(p as int));
                    assert(value@ =~= line@.skip(p + 1 as int));
                }
                if line_is(&key, "log_level") {
                    let parsed = parse_u64(&value);
                    match parsed {
                        Some(v) => {
                            if 1 <= v && v <= 5 {
                                let mut r: Vec<Action> = Vec::new();
                                r.push(Action::SetLogLevel(v as u8));
                                proof {
                                    assert(action_views(r@) =~= seq![
                                        ActionV::SetLogLevel(v as u8),
                                    ]);
                                }
                                r
                            } else {
                                self.mode = Mode::Log {
                                    err: match err {
                                        Some(m) => Some(m),
                                        None => Some(
                                            ascii_lit("300-Invalid value for log_level"),
                                        ),
                                    },
                                };
                                no_acts()
                            }
                        },
                        None => {
                            self.mode = Mode::Log {
                                err: match err {
                                    Some(m) => Some(m),
                                    None => Some(ascii_lit("300-Invalid value for log_level")),
                                },
                            };
                            no_acts()
                        },
                    }
                } else {
                    let mut r: Vec<Action> = Vec::new();
                    let ghost kv = key@;
                    r.push(Action::LogWarn(key));
                    proof {
                        assert(action_views(r@) =~= seq![ActionV::LogWarn(kv)]);
                    }
                    r
                }
            }
        }
    }

    fn do_set(&mut self, err: Option<Vec<u8>>, line: &Vec<u8>) -> (r: Vec<Action>)
        requires
            old(self)@.wf(),
            old(self)@.mode == (ModeV::Prosody {
                err: match err {
                    Some(m) => Some(m@),
                    None => None,
                },
            }),
        ensures
            (final (self)@, action_views(r@)) == spec_set(
                old(self)@,
                match err {
                    Some(m) => Some(m@),
                    None => None,
                },
                line@,
            ),
            final (self)@.wf(),
    {
        proof {
            reveal_strlit(".");
            reveal_strlit("pitch");
            reveal_strlit("rate");
            reveal_strlit("volume");
            reveal_strlit("synthesis_voice");
            reveal_strlit("203 OK SETTINGS RECEIVED");
            reveal_strlit("300 ERR INVALID SETTINGS");
            reveal_strlit("300-Malformed setting");
            reveal_strlit("300-Invalid value for pitch");
            reveal_strlit("300-Invalid value for rate");
            reveal_strlit("300-Invalid value for volume");
            assert(is_ascii("."));
            assert(is_ascii("pitch"));
            assert(is_ascii("rate"));
            assert(is_ascii("volume"));
            assert(is_ascii("synthesis_voice"));
            assert(is_ascii("203 OK SETTINGS RECEIVED"));
            assert(is_ascii("300 ERR INVALID SETTINGS"));
            assert(is_ascii("300-Malformed setting"));
            assert(is_ascii("300-Invalid value for pitch"));
            assert(is_ascii("300-Invalid value for rate"));
            assert(is_ascii("300-Invalid value for volume"));
        }
        if line_is(line, ".") {
            self.mode = Mode::Idle;
            match err {
                None => sends1(ascii_lit("203 OK SETTINGS RECEIVED")),
                Some(m) => sends2(m, ascii_lit("300 ERR INVALID SETTINGS")),
            }
        } else {
            let p = crate::markup::find_at_vec(line, 0, 0x3d);
            if p >= line.len() {
                self.mode = Mode::Prosody {
                    err: match err {
                        Some(m) => Some(m),
                        None => Some(ascii_lit("300-Malformed setting")),
                    },
                };
                no_acts()
            } else {
                let key = subrange_vec(line, 0, p);
                let value = subrange_vec(line, p + 1, line.len());
                proof {
                    assert(key@ =~= line@.take(p as int));
                    assert(value@ =~= line@.skip(p + 1 as int));
                }
                if line_is(&key, "pitch") {
                    match parse_i64(&value) {
                        Some(v) => {
                            self.pitch = pitch_factor(v);
                            no_acts()
                        },
                        None => {
                            self.mode = Mode::Prosody {
                                err: match err {
                                    Some(m) => Some(m),
                                    None => Some(ascii_lit("300-Invalid value for pitch")),
                                },
                            };
                            no_acts()
                        },
                    }
                } else if line_is(&key, "rate") {
                    match parse_i64(&value) {
                        Some(v) => {
                            self.rate = rate_factor(v);
                            no_acts()
                        },
                        None => {
                            self.mode = Mode::Prosody {
                                err: match err {
                                    Some(m) => Some(m),
                                    None => Some(ascii_lit("300-Invalid value for rate")),
                                },
                            };
                            no_acts()
                        },
                    }
                } else if line_is(&key, "volume") {
                    match parse_i64(&value) {
                        Some(v) => {
                            self.volume = volume_factor(v);
                            no_acts()
                        },
                        None => {
                            self.mode = Mode::Prosody {
                                err: match err {
                                    Some(m) => Some(m),
                                    None => Some(ascii_lit("300-Invalid value for volume")),
                                },
                            };
                            no_acts()
                        },
                    }
                } else if line_is(&key, "synthesis_voice") {
                    match self.reg.find_by_name(&value) {
                        Some(j) => {
                            self.voice = j;
                            no_acts()
                        },
                        None => {
                            let mut r: Vec<Action> = Vec::new();
                            let ghost vv = value@;
                            r.push(Action::LogWarn(value));
                            proof {
                                assert(action_views(r@) =~= seq![ActionV::LogWarn(vv)]);
                            }
                            r
                        },
                    }
                } else {
                    no_acts()
                }
            }
        }
    }

    fn do_collect(&mut self, buf: Vec<u8>, line: &Vec<u8>) -> (r: Vec<Action>)
        requires
            old(self)@.wf(),
            old(self)@.mode == (ModeV::Collect { buf: buf@ }),
        ensures
            (final (self)@, action_views(r@)) == spec_collect(old(self)@, buf@, line@),
            final (self)@.wf(),
    {
        proof {
            reveal_strlit(".");
            reveal_strlit("200 OK SPEAKING");
            reveal_strlit("701 BEGIN");
            reveal_strlit("703-Document parse error at byte ");
            reveal_strlit("703 STOP");
            assert(is_ascii("."));
            assert(is_ascii("200 OK SPEAKING"));
            assert(is_ascii("701 BEGIN"));
            assert(is_ascii("703-Document parse error at byte "));
            assert(is_ascii("703 STOP"));
        }
        if line_is(line, ".") {
            self.mode = Mode::Idle;
            match parse_document(&buf) {
                Ok(ns) => {
                    let items = flatten(&ns);
                    let ghost iv = item_views(items@);
                    let mut r: Vec<Action> = Vec::new();
                    r.push(Action::Send(ascii_lit("200 OK SPEAKING")));
                    r.push(Action::Send(ascii_lit("701 BEGIN")));
                    r.push(Action::Play(items));
                    proof {
                        assert(action_views(r@) =~= seq![
                            ActionV::Send(lit("200 OK SPEAKING"@)),
                            ActionV::Send(lit("701 BEGIN"@)),
                            ActionV::Play(iv),
                        ]);
                    }
                    r
                },
                Err(p) => {
                    let mut msg = ascii_lit("703-Document parse error at byte ");
                    let digits = u64_dec(p as u64);
                    push_all(&mut msg, &digits);
                    sends2(msg, ascii_lit("703 STOP"))
                },
            }
        } else {
            let mut nb = buf;
            push_all(&mut nb, line);
            nb.push(0x0a);
            proof {
                assert(nb@ =~= buf@ + line@ + seq![0x0au8]);
            }
            self.mode = Mode::Collect { buf: nb };
            no_acts()
        }
    }

    /// Feeds one incoming line to the dispatcher and yields the actions to
    /// perform, in order, exactly as `spec_handle` lays them down.
    pub fn handle_line(&mut self, line: &Vec<u8>) -> (r: Vec<Action>)
        requires
            old(self)@.wf(),
        ensures
            (final (self)@, action_views(r@)) == spec_handle(old(self)@, line@),
            final (self)@.wf(),
    {
        let disc: u8 = match &self.mode {
            Mode::AwaitInit => 0,
            Mode::Idle => 1,
            Mode::Audio { .. } => 2,
            Mode::Log { .. } => 3,
            Mode::Prosody { .. } => 4,
            Mode::Collect { .. } => 5,
        };
        if disc == 0 {
            self.do_await_init(line)
        } else if disc == 1 {
            self.do_idle(line)
        } else if disc == 2 {
            let (seen, bad): (bool, bool) = match &self.mode {
                Mode::Audio { seen, bad } => (*seen, *bad),
                _ => (false, false),
            };
            self.do_audio(seen, bad, line)
        } else if disc == 3 {
            let err: Option<Vec<u8>> = match &self.mode {
                Mode::Log { err: Some(m) } => Some(copy_vec(m)),
                _ => None,
            };
            self.do_log(err, line)
        } else if disc == 4 {
            let err: Option<Vec<u8>> = match &self.mode {
                Mode::Prosody { err: Some(m) } => Some(copy_vec(m)),
                _ => None,
            };
            self.do_set(err, line)
        } else {
            let buf: Vec<u8> = match &self.mode {
                Mode::Collect { buf } => copy_vec(buf),
                _ => Vec::new(),
            };
            self.do_collect(buf, line)
        }
    }
}

/// The two protocol lines of one index mark: the mark's name as a
/// continuation line, then the mark terminator.
pub open spec fn spec_mark_lines(name: Seq<u8>) -> Seq<Seq<u8>> {
    seq![lit("700-"@) + name, lit("700 INDEX MARK"@)]
}

/// Builds the two protocol lines that report one index mark.
pub fn mark_lines(name: &Vec<u8>) -> (r: Vec<Vec<u8>>)
    ensures
        line_views(r@) == spec_mark_lines(name@),
{
    proof {
        reveal_strlit("700-");
        reveal_strlit("700 INDEX MARK");
        assert(is_ascii("700-"));
        assert(is_ascii("700 INDEX MARK"));
    }
    let mut first = ascii_lit("700-");
    push_all(&mut first, name);
    let mut r: Vec<Vec<u8>> = Vec::new();
    r.push(first);
    r.push(ascii_lit("700 INDEX MARK"));
    proof {
        assert(line_views(r@) =~= spec_mark_lines(name@));
    }
    r
}

/// The terminal status lines of one speak command, from how playback ended:
/// a finished or paused document ends normally, a stopped one reports the
/// stop, and an unexpected command mid-stream is itemized before the stop
/// terminator. A machine still under way yields no lines.
pub open spec fn spec_outcome_lines(s: StepV) -> Seq<Seq<u8>> {
    match s {
        StepV::Done(Outcome::Stop) => seq![lit("703 STOP"@)],
        StepV::Done(_) => seq![lit("702 END"@)],
        StepV::Failed(l) => seq![
            lit("703-Unexpected command during playback: "@) + l,
            lit("703 STOP"@),
        ],
        _ => Seq::empty(),
    }
}

/// Builds the terminal status lines for how playback ended.
pub fn outcome_lines(s: &Step) -> (r: Vec<Vec<u8>>)
    ensures
        line_views(r@) == spec_outcome_lines(s@),
{
    proof {
        reveal_strlit("702 END");
        reveal_strlit("703 STOP");
        reveal_strlit("703-Unexpected command during playback: ");
        assert(is_ascii("702 END"));
        assert(is_ascii("703 STOP"));
        assert(is_ascii("703-Unexpected command during playback: "));
    }
    let mut r: Vec<Vec<u8>> = Vec::new();
    match s {
        Step::Done(o) => {
            let stop = match o {
                Outcome::Stop => true,
                _ => false,
            };
            if stop {
                r.push(ascii_lit("703 STOP"));
            } else {
                r.push(ascii_lit("702 END"));
            }
        },
        Step::Failed(l) => {
            let mut first = ascii_lit("703-Unexpected command during playback: ");
            push_all(&mut first, l);
            r.push(first);
            r.push(ascii_lit("703 STOP"));
        },
        Step::Speak(_) => {},
        Step::Mark(_) => {},
        Step::Entered => {},
        Step::Left => {},
    }
    proof {
        assert(line_views(r@) =~= spec_outcome_lines(s@));
    }
    r
}

/// The status lines reporting a synthesis or model fault during a speak
/// command: the detail as a continuation line, then the stop terminator.
pub open spec fn spec_speak_error_lines(msg: Seq<u8>) -> Seq<Seq<u8>> {
    seq![lit("703-"@) + msg, lit("703 STOP"@)]
}

/// Builds the status lines that report a synthesis or model fault.
pub fn speak_error_lines(msg: &Vec<u8>) -> (r: Vec<Vec<u8>>)
    ensures
        line_views(r@) == spec_speak_error_lines(msg@),
{
    proof {
        reveal_strlit("703-");
        reveal_strlit("703 STOP");
        assert(is_ascii("703-"));
        assert(is_ascii("703 STOP"));
    }
    let mut first = ascii_lit("703-");
    push_all(&mut first, msg);
    let mut r: Vec<Vec<u8>> = Vec::new();
    r.push(first);
    r.push(ascii_lit("703 STOP"));
    proof {
        assert(line_views(r@) =~= spec_speak_error_lines(msg@));
    }
    r
}

} // verus!
