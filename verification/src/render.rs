//! The differential renderer.
//!
//! Every binding has a desired text and a render key; a draw instruction
//! is produced only when the desired text differs from what the Render
//! Cache remembers under that key, and the cache then learns the new
//! text.  Run twice over unchanged state, the second pass draws nothing.

use vstd::prelude::*;

use crate::display::COLOR_WHITE;
use crate::display::DrawCmd;
use crate::display::DrawPos;
use crate::display::FontChoice;
use crate::display::Point;
use crate::numbers::spec_round_decimal;
use crate::numbers::round_decimal;
use crate::store::StateStore;
use crate::text::str_eq;
use crate::util::HAConnect;
use crate::util::cmp_matches;
use crate::util::cmp_matches_spec;

verus! {

/// A draw instruction with its text abstracted to a character sequence,
/// which is what contracts speak about.
pub enum CmdView {
    Clear { color: u16, pos: DrawPos },
    Erase { color: u16 },
    Text {
        pos: DrawPos,
        text: Seq<char>,
        text_color: u16,
        font: Option<FontChoice>,
        background: Option<u16>,
    },
}

/// The abstraction of one draw instruction.
pub open spec fn cmd_view(c: DrawCmd) -> CmdView {
    match c {
        DrawCmd::Clear { color, pos } => CmdView::Clear { color, pos },
        DrawCmd::Erase { color } => CmdView::Erase { color },
        DrawCmd::Text { pos, text, text_color, font, background } => CmdView::Text {
            pos,
            text: text@,
            text_color,
            font,
            background,
        },
    }
}

/// The abstractions of a list of draw instructions.
pub open spec fn cmds_view(cs: Seq<DrawCmd>) -> Seq<CmdView> {
    cs.map_values(|c: DrawCmd| cmd_view(c))
}

/// The panel line a numbered text row starts at.
pub open spec fn line_pos(line: u8) -> DrawPos {
    DrawPos::Pos(Point { x: 10, y: (30 * (line as i32 + 2)) as i32 })
}

/// The render key a binding's instructions are deduplicated under: the
/// tracked identity, or the fixed text itself for a fixed text binding.
pub open spec fn render_key(c: HAConnect) -> Seq<char> {
    crate::util::connect_id(c)
}

/// The rounded suffix a mirror line shows for a tracked value: the
/// nearest integer when the value reads as a decimal numeral, nothing
/// otherwise.
pub open spec fn round_suffix(v: Seq<char>) -> Seq<char> {
    match spec_round_decimal(v) {
        Some(x) => x,
        None => Seq::empty(),
    }
}

/// What one binding wants shown, against the given state: the desired
/// text and the full draw instruction carrying it; nothing for a mirror
/// line whose identity is untracked.
pub open spec fn desired(c: HAConnect, m: Map<Seq<char>, Seq<char>>) -> Option<
    (Seq<char>, CmdView),
> {
    match c {
        HAConnect::Text { line, text, color } => Some(
            (
                text@,
                CmdView::Text {
                    pos: line_pos(line),
                    text: text@,
                    text_color: color,
                    font: Some(FontChoice::Large24),
                    background: Some(COLOR_WHITE),
                },
            ),
        ),
        HAConnect::Line { line, ha_id, text, make_int, color } => {
            if m.contains_key(ha_id@) {
                let shown = if make_int {
                    text@ + round_suffix(m[ha_id@])
                } else {
                    text@ + m[ha_id@]
                };
                Some(
                    (
                        shown,
                        CmdView::Text {
                            pos: line_pos(line),
                            text: shown,
                            text_color: color,
                            font: Some(FontChoice::Large24),
                            background: Some(COLOR_WHITE),
                        },
                    ),
                )
            } else {
                None
            }
        },
        HAConnect::Button { button, ha_id, cmp, text_on, text_off, color, .. } => {
            let on = m.contains_key(ha_id@) && cmp_matches_spec(cmp, m[ha_id@]);
            let shown = if on {
                text_on@
            } else {
                text_off@
            };
            Some(
                (
                    shown,
                    CmdView::Text {
                        pos: DrawPos::Button(button),
                        text: shown,
                        text_color: color,
                        font: None,
                        background: Some(COLOR_WHITE),
                    },
                ),
            )
        },
    }
}

/// One differential pass over the bindings: for each binding in order,
/// its desired text is compared with the cache under its render key; on
/// a difference the instruction is emitted and the cache updated.
pub open spec fn spec_render(
    bs: Seq<HAConnect>,
    m: Map<Seq<char>, Seq<char>>,
    cache: Map<Seq<char>, Seq<char>>,
) -> (Seq<CmdView>, Map<Seq<char>, Seq<char>>)
    decreases bs.len(),
{
    if bs.len() == 0 {
        (Seq::empty(), cache)
    } else {
        match desired(bs[0], m) {
            None => spec_render(bs.skip(1), m, cache),
            Some((txt, cmd)) => {
                let key = render_key(bs[0]);
                if cache.contains_key(key) && cache[key] == txt {
                    spec_render(bs.skip(1), m, cache)
                } else {
                    let rec = spec_render(bs.skip(1), m, cache.insert(key, txt));
                    (seq![cmd] + rec.0, rec.1)
                }
            },
        }
    }
}

/// Builds the draw instruction of one binding around its computed text.
fn make_cmd(c: &HAConnect, shown: String) -> (r: DrawCmd)
    ensures
        match *c {
            HAConnect::Text { line, color, .. } => cmd_view(r) == (CmdView::Text {
                pos: line_pos(line),
                text: shown@,
                text_color: color,
                font: Some(FontChoice::Large24),
                background: Some(COLOR_WHITE),
            }),
            HAConnect::Line { line, color, .. } => cmd_view(r) == (CmdView::Text {
                pos: line_pos(line),
                text: shown@,
                text_color: color,
                font: Some(FontChoice::Large24),
                background: Some(COLOR_WHITE),
            }),
            HAConnect::Button { button, color, .. } => cmd_view(r) == (CmdView::Text {
                pos: DrawPos::Button(button),
                text: shown@,
                text_color: color,
                font: None,
                background: Some(COLOR_WHITE),
            }),
        },
{
    match c {
        HAConnect::Text { line, color, .. } => DrawCmd::Text {
            pos: DrawPos::Pos(Point { x: 10, y: 30 * (*line as i32 + 2) }),
            text: shown,
            text_color: *color,
            font: Some(FontChoice::Large24),
            background: Some(COLOR_WHITE),
        },
        HAConnect::Line { line, color, .. } => DrawCmd::Text {
            pos: DrawPos::Pos(Point { x: 10, y: 30 * (*line as i32 + 2) }),
            text: shown,
            text_color: *color,
            font: Some(FontChoice::Large24),
            background: Some(COLOR_WHITE),
        },
        HAConnect::Button { button, color, .. } => DrawCmd::Text {
            pos: DrawPos::Button(*button),
            text: shown,
            text_color: *color,
            font: None,
            background: Some(COLOR_WHITE),
        },
    }
}

/// Computes one binding's desired text against the state, exactly the
/// first component of `desired`.
fn desired_text(c: &HAConnect, states: &StateStore) -> (r: Option<String>)
    requires
        states.wf(),
    ensures
        match r {
            Some(t) => desired(*c, states@) is Some && desired(*c, states@)->Some_0.0 == t@,
            None => desired(*c, states@) is None,
        },
{
    match c {
        HAConnect::Text { text, .. } => Some(text.clone()),
        HAConnect::Line { ha_id, text, make_int, .. } => {
            match states.get(ha_id.as_str()) {
                Some(st) => {
                    let mut shown = text.clone();
                    if *make_int {
                        match round_decimal(st.as_str()) {
                            Some(suffix) => {
                                shown.append(suffix.as_str());
                            },
                            None => {},
                        }
                        proof {
                            assert(shown@ =~= text@ + round_suffix(states@[ha_id@]));
                        }
                    } else {
                        shown.append(st.as_str());
                    }
                    Some(shown)
                },
                None => None,
            }
        },
        HAConnect::Button { ha_id, cmp, text_on, text_off, .. } => {
            let on: bool = match states.get(ha_id.as_str()) {
                Some(st) => cmp_matches(cmp, st.as_str()),
                None => false,
            };
            if on {
                Some(text_on.clone())
            } else {
                Some(text_off.clone())
            }
        },
    }
}

/// One pass of the differential renderer: updates the Render Cache and
/// hands back exactly the instructions for bindings whose rendered text
/// changed, as `spec_render` describes.
pub fn render_states(
    connect: &Vec<HAConnect>,
    states: &StateStore,
    last_state: &mut StateStore,
) -> (r: Vec<DrawCmd>)
    requires
        states.wf(),
        old(last_state).wf(),
    ensures
        final(last_state).wf(),
        (cmds_view(r@), final(last_state)@) == spec_render(connect@, states@, old(last_state)@),
{
    let ghost m = states@;
    let ghost cache0 = old(last_state)@;
    let mut out: Vec<DrawCmd> = Vec::new();
    let mut i: usize = 0;
    proof {
        assert(connect@.skip(0) =~= connect@);
        assert(cmds_view(Seq::empty()) =~= Seq::<CmdView>::empty());
    }
    while i < connect.len()
        invariant
            i <= connect@.len(),
            m == states@,
            states.wf(),
            last_state.wf(),
            spec_render(connect@, m, cache0) == {
                let rec = spec_render(connect@.skip(i as int), m, last_state@);
                (cmds_view(out@) + rec.0, rec.1)
            },
        decreases connect@.len() - i,
    {
        let c = &connect[i];
        proof {
            assert(connect@.skip(i as int)[0] == connect@[i as int]);
            assert(connect@.skip(i as int).skip(1) =~= connect@.skip(i as int + 1));
        }
        match desired_text(c, states) {
            Some(shown) => {
                let key = c.ha_id();
                let in_cache: bool = match last_state.get(key.as_str()) {
                    Some(cached) => str_eq(cached.as_str(), shown.as_str()),
                    None => false,
                };
                if !in_cache {
                    let key_owned = key.clone();
                    last_state.insert(key_owned.as_str(), shown.as_str());
                    let cmd = make_cmd(c, shown);
                    out.push(cmd);
                    proof {
                        assert(cmds_view(out@) =~= cmds_view(out@.drop_last()) + seq![
                            cmd_view(out@.last()),
                        ]);
                        assert(cmds_view(out@.drop_last()) + seq![cmd_view(out@.last())]
                            + spec_render(connect@.skip(i as int + 1), m, last_state@).0
                            =~= cmds_view(out@.drop_last()) + (seq![cmd_view(out@.last())]
                            + spec_render(connect@.skip(i as int + 1), m, last_state@).0));
                    }
                }
            },
            None => {},
        }
        i += 1;
    }
    proof {
        assert(connect@.skip(i as int) =~= Seq::<HAConnect>::empty());
        assert(cmds_view(out@) + Seq::<CmdView>::empty() =~= cmds_view(out@));
    }
    out
}

/// Every binding's desired text agrees wherever render keys collide: two
/// bindings sharing a key want the same text.  This holds in particular
/// when all render keys are distinct.
pub open spec fn consistent_bindings(bs: Seq<HAConnect>, m: Map<Seq<char>, Seq<char>>) -> bool {
    forall|i: int, j: int|
        0 <= i < bs.len() && 0 <= j < bs.len() && desired(bs[i], m) is Some && desired(bs[j], m)
            is Some && render_key(bs[i]) == render_key(bs[j]) ==> desired(bs[i], m)->Some_0.0
            == desired(bs[j], m)->Some_0.0
}

/// The cache already holds every binding's desired text.
pub open spec fn cache_covers(
    bs: Seq<HAConnect>,
    m: Map<Seq<char>, Seq<char>>,
    cache: Map<Seq<char>, Seq<char>>,
) -> bool {
    forall|i: int|
        0 <= i < bs.len() && desired(bs[i], m) is Some ==> cache.contains_key(
            #[trigger] render_key(bs[i]),
        ) && cache[render_key(bs[i])] == desired(bs[i], m)->Some_0.0
}

/// A pass never unlearns a cached text that every colliding binding
/// agrees with.
proof fn lemma_render_preserves(
    bs: Seq<HAConnect>,
    m: Map<Seq<char>, Seq<char>>,
    cache: Map<Seq<char>, Seq<char>>,
    k: Seq<char>,
    t: Seq<char>,
)
    requires
        cache.contains_key(k),
        cache[k] == t,
        forall|i: int|
            0 <= i < bs.len() && desired(bs[i], m) is Some && #[trigger] render_key(bs[i]) == k
                ==> desired(bs[i], m)->Some_0.0 == t,
    ensures
        spec_render(bs, m, cache).1.contains_key(k),
        spec_render(bs, m, cache).1[k] == t,
    decreases bs.len(),
{
    if bs.len() > 0 {
        let rest = bs.skip(1);
        assert(forall|i: int|
            0 <= i < rest.len() ==> rest[i] == bs[i + 1]);
        match desired(bs[0], m) {
            None => {
                lemma_render_preserves(rest, m, cache, k, t);
            },
            Some((txt, cmd)) => {
                let key = render_key(bs[0]);
                if cache.contains_key(key) && cache[key] == txt {
                    lemma_render_preserves(rest, m, cache, k, t);
                } else {
                    lemma_render_preserves(rest, m, cache.insert(key, txt), k, t);
                }
            },
        }
    }
}

/// After one pass, the cache holds every binding's desired text.
proof fn lemma_render_covers(
    bs: Seq<HAConnect>,
    m: Map<Seq<char>, Seq<char>>,
    cache: Map<Seq<char>, Seq<char>>,
)
    requires
        consistent_bindings(bs, m),
    ensures
        cache_covers(bs, m, spec_render(bs, m, cache).1),
    decreases bs.len(),
{
    if bs.len() > 0 {
        let rest = bs.skip(1);
        assert(forall|i: int| 0 <= i < rest.len() ==> rest[i] == bs[i + 1]);
        assert(consistent_bindings(rest, m));
        match desired(bs[0], m) {
            None => {
                lemma_render_covers(rest, m, cache);
                assert forall|i: int|
                    0 <= i < bs.len() && desired(bs[i], m) is Some implies spec_render(
                    bs,
                    m,
                    cache,
                ).1.contains_key(#[trigger] render_key(bs[i])) && spec_render(bs, m, cache).1[
                    render_key(bs[i])] == desired(bs[i], m)->Some_0.0 by {
                    assert(i > 0);
                    assert(rest[i - 1] == bs[i]);
                }
            },
            Some((txt, cmd)) => {
                let key = render_key(bs[0]);
                let cache1: Map<Seq<char>, Seq<char>> = if cache.contains_key(key) && cache[key]
                    == txt {
                    cache
                } else {
                    cache.insert(key, txt)
                };
                assert(spec_render(bs, m, cache).1 == spec_render(rest, m, cache1).1);
                lemma_render_covers(rest, m, cache1);
                assert(cache1.contains_key(key) && cache1[key] == txt);
                lemma_render_preserves(
                    rest,
                    m,
                    cache1,
                    key,
                    txt,
                );
                assert forall|i: int|
                    0 <= i < bs.len() && desired(bs[i], m) is Some implies spec_render(
                    bs,
                    m,
                    cache,
                ).1.contains_key(#[trigger] render_key(bs[i])) && spec_render(bs, m, cache).1[
                    render_key(bs[i])] == desired(bs[i], m)->Some_0.0 by {
                    if i > 0 {
                        assert(rest[i - 1] == bs[i]);
                    }
                }
            },
        }
    }
}

/// A pass over a covering cache draws nothing and changes nothing.
proof fn lemma_render_stable(
    bs: Seq<HAConnect>,
    m: Map<Seq<char>, Seq<char>>,
    cache: Map<Seq<char>, Seq<char>>,
)
    requires
        cache_covers(bs, m, cache),
    ensures
        spec_render(bs, m, cache).0 == Seq::<CmdView>::empty(),
        spec_render(bs, m, cache).1 == cache,
    decreases bs.len(),
{
    if bs.len() > 0 {
        let rest = bs.skip(1);
        assert(forall|i: int| 0 <= i < rest.len() ==> rest[i] == bs[i + 1]);
        assert(cache_covers(rest, m, cache));
        match desired(bs[0], m) {
            None => {
                lemma_render_stable(rest, m, cache);
            },
            Some((txt, cmd)) => {
                assert(desired(bs[0], m) is Some);
                assert(cache.contains_key(render_key(bs[0])));
                assert(cache[render_key(bs[0])] == txt);
                lemma_render_stable(rest, m, cache);
            },
        }
    }
}

/// The differential pass is idempotent: run twice with no state change
/// in between, the second pass emits no draw instruction at all and
/// leaves the Render Cache as it was — provided bindings that share a
/// render key want the same text there, as they do whenever render keys
/// are distinct.
pub proof fn lemma_render_idempotent(
    bs: Seq<HAConnect>,
    m: Map<Seq<char>, Seq<char>>,
    cache: Map<Seq<char>, Seq<char>>,
)
    requires
        consistent_bindings(bs, m),
    ensures
        ({
            let first = spec_render(bs, m, cache);
            spec_render(bs, m, first.1).0 == Seq::<CmdView>::empty() && spec_render(
                bs,
                m,
                first.1,
            ).1 == first.1
        }),
{
    lemma_render_covers(bs, m, cache);
    lemma_render_stable(bs, m, spec_render(bs, m, cache).1);
}

} // verus!
