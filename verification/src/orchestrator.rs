//! The Orchestrator's decisions: everything the single control loop
//! computes between receiving a message and acting on it.
//!
//! The loop itself — channels, the one-second select ceiling, the
//! bootstrap fetches — lives outside the library; what is here is each
//! decision as a function of plain values: the clock line, the
//! configuration name and fallback, the seeded State Store, the
//! commands a button press dispatches, the application of one decoded
//! remote event, and the time-sync watchdog.

use vstd::prelude::*;

use crate::display::COLOR_BLACK;
use crate::display::COLOR_WHITE;
use crate::display::DrawCmd;
use crate::display::DrawPos;
use crate::display::FontChoice;
use crate::display::Point;
use crate::jsontext::hex_lower;
use crate::jsontext::hex_lower_exec;
use crate::jsonval::JsonNode;
use crate::jsonval::spec_traverse;
use crate::jsonval::strs_view;
use crate::jsonval::traverse;
use crate::numbers::dec_digits;
use crate::numbers::u64_to_string;
use crate::render::CmdView;
use crate::render::cmd_view;
use crate::render::cmds_view;
use crate::render::spec_render;
use crate::render::render_states;
use crate::store::StateStore;
use crate::text::push_char;
use crate::util::HAConnect;
use crate::util::HAAction;
use crate::util::RequestIds;
use crate::util::action_json;
use crate::util::connect_id;
use crate::util::is_on_spec;

verus! {

/// The capacity of the button-event channel.
pub const BUTTON_CHANNEL_CAP: usize = 5;

/// The capacity of the decoded-remote-event channel.
pub const EVENT_CHANNEL_CAP: usize = 60;

/// The cadence the analog sense line is polled at, in milliseconds.
pub const BUTTON_POLL_MS: u64 = 50;

/// The ceiling on one wait of the control loop, in seconds.
pub const SELECT_TIMEOUT_SECS: u64 = 1;

/// How many failed time-sync attempts are tolerated before a deliberate
/// full restart.
pub const SNTP_RESET_LIMIT: u32 = 100;

/// The formatted clock line: the hour right-aligned to nine characters,
/// a colon, and the minute as two digits.
pub open spec fn clock_text_spec(h: nat, m: nat) -> Seq<char> {
    let hd = dec_digits(h);
    let pad: nat = if hd.len() < 9 {
        (9 - hd.len()) as nat
    } else {
        0
    };
    Seq::new(pad, |i: int| ' ') + hd + seq![':'] + (if m < 10 {
        seq!['0']
    } else {
        Seq::empty()
    }) + dec_digits(m)
}

/// Formats the wall-clock line, exactly as `clock_text_spec` describes.
pub fn clock_text(hour: u32, minute: u32) -> (r: String)
    requires
        hour <= 23,
        minute <= 59,
    ensures
        r@ == clock_text_spec(hour as nat, minute as nat),
{
    let hd = u64_to_string(hour as u64);
    let hn: usize = hd.as_str().unicode_len();
    proof {
        if hour < 10 {
            assert(dec_digits(hour as nat).len() == 1);
        } else {
            assert(dec_digits(hour as nat) == dec_digits((hour / 10) as nat).push(
                crate::numbers::digit_char((hour % 10) as nat),
            ));
            assert(dec_digits((hour / 10) as nat).len() == 1);
        }
    }
    let pad: usize = 9 - hn;
    let mut r = String::new();
    let mut k: usize = 0;
    while k < pad
        invariant
            k <= pad,
            r@ == Seq::new(k as nat, |i: int| ' '),
        decreases pad - k,
    {
        push_char(&mut r, ' ');
        k += 1;
        proof {
            assert(r@ =~= Seq::new(k as nat, |i: int| ' '));
        }
    }
    r.append(hd.as_str());
    push_char(&mut r, ':');
    if minute < 10 {
        push_char(&mut r, '0');
    }
    let md = u64_to_string(minute as u64);
    r.append(md.as_str());
    proof {
        assert(r@ =~= clock_text_spec(hour as nat, minute as nat));
    }
    r
}

/// Where and how the clock line is drawn.
pub open spec fn clock_cmd_view(t: Seq<char>) -> CmdView {
    CmdView::Text {
        pos: DrawPos::Pos(Point { x: 10, y: 20 }),
        text: t,
        text_color: COLOR_BLACK,
        font: Some(FontChoice::Large24),
        background: Some(COLOR_WHITE),
    }
}

/// Recomputes the clock line and, exactly when it differs from the last
/// rendered one, remembers it and hands back the one draw instruction
/// for it.
pub fn clock_update(hour: u32, minute: u32, last_time: &mut String) -> (r: Option<DrawCmd>)
    requires
        hour <= 23,
        minute <= 59,
    ensures
        ({
            let t = clock_text_spec(hour as nat, minute as nat);
            if t == old(last_time)@ {
                r is None && final(last_time)@ == old(last_time)@
            } else {
                final(last_time)@ == t && r is Some && cmd_view(r->Some_0) == clock_cmd_view(t)
            }
        }),
{
    let t = clock_text(hour, minute);
    if crate::text::str_eq(t.as_str(), last_time.as_str()) {
        None
    } else {
        let shown = t.clone();
        *last_time = t;
        Some(
            DrawCmd::Text {
                pos: DrawPos::Pos(Point { x: 10, y: 20 }),
                text: shown,
                text_color: COLOR_BLACK,
                font: Some(FontChoice::Large24),
                background: Some(COLOR_WHITE),
            },
        )
    }
}

/// The two hexadecimal digits of one byte.
pub open spec fn byte_hex(b: u8) -> Seq<char> {
    seq![hex_lower((b / 16) as nat), hex_lower((b % 16) as nat)]
}

/// The device-specific configuration name: three hardware-address bytes
/// in lower-case hexadecimal, joined by underscores; the fixed fallback
/// name when the address could not be read.
pub open spec fn config_basename_spec(b3: u8, b4: u8, b5: u8, ok: bool) -> Seq<char> {
    if ok {
        byte_hex(b3) + seq!['_'] + byte_hex(b4) + seq!['_'] + byte_hex(b5)
    } else {
        "base"@
    }
}

/// Appends one byte as two hexadecimal digits.
fn push_byte_hex(out: &mut String, b: u8)
    ensures
        final(out)@ == old(out)@ + byte_hex(b),
{
    let v: u32 = b as u32;
    push_char(out, hex_lower_exec(v / 16));
    push_char(out, hex_lower_exec(v % 16));
    proof {
        assert(out@ =~= old(out)@ + byte_hex(b));
    }
}

/// Derives the configuration name from the hardware address, exactly as
/// `config_basename_spec` describes.
pub fn config_basename(b3: u8, b4: u8, b5: u8, ok: bool) -> (r: String)
    ensures
        r@ == config_basename_spec(b3, b4, b5, ok),
{
    if ok {
        let mut r = String::new();
        push_byte_hex(&mut r, b3);
        push_char(&mut r, '_');
        push_byte_hex(&mut r, b4);
        push_char(&mut r, '_');
        push_byte_hex(&mut r, b5);
        proof {
            assert(r@ =~= config_basename_spec(b3, b4, b5, true));
        }
        r
    } else {
        ("base").to_owned()
    }
}

/// Falls back to the single diagnostic binding when the configuration
/// could not be read or parsed: the process keeps running with a line
/// announcing the failure instead of crashing.
pub fn config_or_fallback(parsed: Option<Vec<HAConnect>>) -> (r: Vec<HAConnect>)
    ensures
        match parsed {
            Some(v) => r == v,
            None => r@.len() == 1 && match r@[0] {
                HAConnect::Text { line, text, color } => line == 0 && text@
                    == "Failed to load config!"@ && color == 0,
                _ => false,
            },
        },
{
    match parsed {
        Some(v) => v,
        None => {
            let mut r: Vec<HAConnect> = Vec::new();
            r.push(
                HAConnect::Text { line: 0, text: ("Failed to load config!").to_owned(), color: 0 },
            );
            r
        },
    }
}

/// The State Store the bindings ask for, every tracked identity at the
/// default empty value.
pub open spec fn seed_map(bs: Seq<HAConnect>) -> Map<Seq<char>, Seq<char>>
    decreases bs.len(),
{
    if bs.len() == 0 {
        Map::empty()
    } else {
        seed_map(bs.drop_last()).insert(connect_id(bs.last()), Seq::empty())
    }
}

/// Every binding's identity is tracked once seeded.
pub proof fn lemma_seed_tracks(bs: Seq<HAConnect>, i: int)
    requires
        0 <= i < bs.len(),
    ensures
        seed_map(bs).contains_key(connect_id(bs[i])),
    decreases bs.len(),
{
    if i < bs.len() - 1 {
        lemma_seed_tracks(bs.drop_last(), i);
    }
}

/// Builds the State Store for a binding table: one entry per tracked
/// identity, each at the default empty value, exactly `seed_map`.
pub fn init_states(config: &Vec<HAConnect>) -> (r: StateStore)
    ensures
        r.wf(),
        r@ == seed_map(config@),
{
    let mut r = StateStore::new();
    let mut i: usize = 0;
    while i < config.len()
        invariant
            i <= config@.len(),
            r.wf(),
            r@ =~= seed_map(config@.take(i as int)),
        decreases config@.len() - i,
    {
        r.insert(config[i].ha_id().as_str(), "");
        i += 1;
        proof {
            reveal_strlit("");
            assert(""@ =~= Seq::<char>::empty());
            assert(config@.take(i as int).drop_last() =~= config@.take(i as int - 1));
            assert(config@.take(i as int).last() == config@[i as int - 1]);
        }
    }
    proof {
        assert(config@.take(config@.len() as int) =~= config@);
    }
    r
}

/// The outbound requests one button press dispatches, with the
/// identifiers they consume: for each button binding wearing the pressed
/// button's number, in table order, the active action — the off action
/// when the binding reads as on, the on action otherwise — serialized
/// under the next fresh identifier.  A press with no matching binding
/// dispatches nothing.
pub open spec fn spec_button_cmds(
    bs: Seq<HAConnect>,
    m: Map<Seq<char>, Seq<char>>,
    b: u8,
    id0: nat,
) -> (Seq<Seq<char>>, nat)
    decreases bs.len(),
{
    if bs.len() == 0 {
        (Seq::empty(), id0)
    } else {
        match bs[0] {
            HAConnect::Button { button, action_on, action_off, .. } => {
                if button == b {
                    let a = if is_on_spec(bs[0], m) {
                        action_off
                    } else {
                        action_on
                    };
                    let rec = spec_button_cmds(bs.skip(1), m, b, id0 + 1);
                    (seq![action_json(a, id0)] + rec.0, rec.1)
                } else {
                    spec_button_cmds(bs.skip(1), m, b, id0)
                }
            },
            _ => spec_button_cmds(bs.skip(1), m, b, id0),
        }
    }
}

/// The views of serialized requests.
pub open spec fn strings_view(ss: Seq<String>) -> Seq<Seq<char>> {
    ss.map_values(|s: String| s@)
}

/// Dispatches one button press against the binding table, exactly as
/// `spec_button_cmds` describes, consuming one request identifier per
/// dispatched request.
pub fn button_commands(
    config: &Vec<HAConnect>,
    states: &StateStore,
    the_button: u8,
    ids: &mut RequestIds,
) -> (r: Vec<String>)
    requires
        states.wf(),
        old(ids).next_id() + config@.len() < u64::MAX,
    ensures
        (strings_view(r@), final(ids).next_id() as nat) == spec_button_cmds(
            config@,
            states@,
            the_button,
            old(ids).next_id() as nat,
        ),
{
    let ghost m = states@;
    let mut r: Vec<String> = Vec::new();
    let mut i: usize = 0;
    proof {
        assert(config@.skip(0) =~= config@);
        assert(strings_view(Seq::empty()) =~= Seq::<Seq<char>>::empty());
    }
    while i < config.len()
        invariant
            i <= config@.len(),
            m == states@,
            states.wf(),
            ids.next_id() + (config@.len() - i) < u64::MAX,
            spec_button_cmds(config@, m, the_button, old(ids).next_id() as nat) == {
                let rec = spec_button_cmds(
                    config@.skip(i as int),
                    m,
                    the_button,
                    ids.next_id() as nat,
                );
                (strings_view(r@) + rec.0, rec.1)
            },
        decreases config@.len() - i,
    {
        let c = &config[i];
        proof {
            assert(config@.skip(i as int)[0] == config@[i as int]);
            assert(config@.skip(i as int).skip(1) =~= config@.skip(i as int + 1));
        }
        match c {
            HAConnect::Button { button, action_on, action_off, .. } => {
                if *button == the_button {
                    let on = c.is_on(states);
                    let act: &HAAction = if on {
                        action_off
                    } else {
                        action_on
                    };
                    let id = ids.allocate();
                    let json = act.as_json(id);
                    r.push(json);
                    proof {
                        assert(strings_view(r@) =~= strings_view(r@.drop_last()) + seq![
                            r@.last()@,
                        ]);
                        assert(strings_view(r@.drop_last()) + seq![r@.last()@] + spec_button_cmds(
                            config@.skip(i as int + 1),
                            m,
                            the_button,
                            ids.next_id() as nat,
                        ).0 =~= strings_view(r@.drop_last()) + (seq![r@.last()@]
                            + spec_button_cmds(
                            config@.skip(i as int + 1),
                            m,
                            the_button,
                            ids.next_id() as nat,
                        ).0));
                    }
                }
            },
            _ => {},
        }
        i += 1;
    }
    proof {
        assert(config@.skip(i as int) =~= Seq::<HAConnect>::empty());
        assert(strings_view(r@) + Seq::<Seq<char>>::empty() =~= strings_view(r@));
    }
    r
}

/// The entity identity a decoded remote event names.
pub open spec fn event_entity(n: JsonNode) -> Option<Seq<char>> {
    spec_traverse(n, seq!["event"@, "data"@, "entity_id"@])
}

/// The new state a decoded remote event carries.
pub open spec fn event_value(n: JsonNode) -> Option<Seq<char>> {
    spec_traverse(n, seq!["event"@, "data"@, "new_state"@, "state"@])
}

/// What one decoded remote event does to the store, the cache and the
/// panel: an event naming a tracked identity with a new state applies
/// the delta and re-runs the differential pass; anything else changes
/// nothing and draws nothing.
pub open spec fn spec_handle_event(
    bs: Seq<HAConnect>,
    n: JsonNode,
    m: Map<Seq<char>, Seq<char>>,
    cache: Map<Seq<char>, Seq<char>>,
) -> (Map<Seq<char>, Seq<char>>, Map<Seq<char>, Seq<char>>, Seq<CmdView>) {
    match event_entity(n) {
        Some(id) => if m.contains_key(id) {
            match event_value(n) {
                Some(v) => {
                    let m2 = m.insert(id, v);
                    let rr = spec_render(bs, m2, cache);
                    (m2, rr.1, rr.0)
                },
                None => (m, cache, Seq::empty()),
            }
        } else {
            (m, cache, Seq::empty())
        },
        None => (m, cache, Seq::empty()),
    }
}

/// Applies one decoded remote event, exactly as `spec_handle_event`
/// describes: the delta is applied only to a tracked identity, and the
/// differential pass runs only when something was applied.
pub fn handle_event(
    config: &Vec<HAConnect>,
    states: &mut StateStore,
    last_state: &mut StateStore,
    json: &JsonNode,
) -> (r: Vec<DrawCmd>)
    requires
        old(states).wf(),
        old(last_state).wf(),
    ensures
        final(states).wf(),
        final(last_state).wf(),
        (final(states)@, final(last_state)@, cmds_view(r@)) == spec_handle_event(
            config@,
            *json,
            old(states)@,
            old(last_state)@,
        ),
{
    let mut epath: Vec<&str> = Vec::new();
    epath.push("event");
    epath.push("data");
    epath.push("entity_id");
    proof {
        assert(strs_view(epath@) =~= seq!["event"@, "data"@, "entity_id"@]);
    }
    let entity = traverse(json, epath.as_slice());
    match entity {
        Some(id) => {
            if states.contains(id.as_str()) {
                let mut vpath: Vec<&str> = Vec::new();
                vpath.push("event");
                vpath.push("data");
                vpath.push("new_state");
                vpath.push("state");
                proof {
                    assert(strs_view(vpath@) =~= seq!["event"@, "data"@, "new_state"@, "state"@]);
                }
                match traverse(json, vpath.as_slice()) {
                    Some(v) => {
                        states.insert(id.as_str(), v.as_str());
                        render_states(config, states, last_state)
                    },
                    None => Vec::new(),
                }
            } else {
                Vec::new()
            }
        },
        None => Vec::new(),
    }
}

/// The time-sync watchdog's verdicts.
#[derive(Debug, Clone, Copy, PartialEq, Eq, Structural)]
pub enum SntpStep {
    MarkSynced,
    Wait,
    Restart,
}

/// The reported state of one time-sync attempt.
#[derive(Debug, Clone, Copy, PartialEq, Eq, Structural)]
pub enum SyncStatus {
    Completed,
    InProgress,
    Reset,
}

/// One turn of the time-sync watchdog: a completed sync marks the clock
/// live; progress waits; a reset counts, and past the bounded number of
/// tolerated resets the verdict is a deliberate full restart.
pub fn sntp_tick(status: SyncStatus, reset_count: u32) -> (r: (SntpStep, u32))
    requires
        reset_count <= SNTP_RESET_LIMIT,
    ensures
        match status {
            SyncStatus::Completed => r == (SntpStep::MarkSynced, reset_count),
            SyncStatus::InProgress => r == (SntpStep::Wait, reset_count),
            SyncStatus::Reset => r.1 == reset_count + 1 && r.0 == if reset_count + 1
                > SNTP_RESET_LIMIT {
                SntpStep::Restart
            } else {
                SntpStep::Wait
            },
        },
{
    match status {
        SyncStatus::Completed => (SntpStep::MarkSynced, reset_count),
        SyncStatus::InProgress => (SntpStep::Wait, reset_count),
        SyncStatus::Reset => {
            let n = reset_count + 1;
            if n > SNTP_RESET_LIMIT {
                (SntpStep::Restart, n)
            } else {
                (SntpStep::Wait, n)
            }
        },
    }
}

} // verus!
