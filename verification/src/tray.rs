//! What the tray shows.

use vstd::prelude::*;

use crate::numerals::{decimal, write_u64};
use crate::scan::{join, joined};
use crate::state::{SnapshotView, State, StatusSnapshot};
use crate::text::texts;

verus! {

/// The width and height of the icon, in pixels.
pub const ICON_SIZE: usize = 22;

/// A pixel lies within the dot. Distances are counted in half pixels from the
/// middle of the icon; the radius is nineteen of them.
pub open spec fn in_dot(x: int, y: int) -> bool {
    (2 * x - 21) * (2 * x - 21) + (2 * y - 21) * (2 * y - 21) <= 361
}

/// The byte at `k` of the icon: rows of pixels, each of four bytes: alpha, red,
/// green, blue.
pub open spec fn dot_byte(k: int, r: u8, g: u8, b: u8) -> u8 {
    let x = (k / 4) % 22;
    let y = (k / 4) / 22;
    if k % 4 == 0 {
        if in_dot(x, y) {
            0xFF
        } else {
            0x00
        }
    } else if k % 4 == 1 {
        r
    } else if k % 4 == 2 {
        g
    } else {
        b
    }
}

/// A dot of one colour, as the bytes of an icon.
pub fn dot_icon(r: u8, g: u8, b: u8) -> (data: Vec<u8>)
    ensures
        data@.len() == 1936,
        forall|k: int| 0 <= k < 1936 ==> #[trigger] data@[k] == dot_byte(k, r, g, b),
{
    let mut data: Vec<u8> = Vec::new();
    let mut n: i32 = 0;
    while n < 484
        invariant
            0 <= n <= 484,
            data@.len() == 4 * n,
            forall|k: int| 0 <= k < 4 * n ==> #[trigger] data@[k] == dot_byte(k, r, g, b),
        decreases 484 - n,
    {
        let x: i32 = n % 22;
        let y: i32 = n / 22;
        let dx: i32 = 2 * x - 21;
        let dy: i32 = 2 * y - 21;
        proof {
            assert(0 <= dx * dx <= 441) by (nonlinear_arith)
                requires
                    -21 <= dx <= 21,
            ;
            assert(0 <= dy * dy <= 441) by (nonlinear_arith)
                requires
                    -21 <= dy <= 21,
            ;
        }
        let a: u8 = if dx * dx + dy * dy <= 361 {
            0xFF
        } else {
            0x00
        };
        let ghost before = data@;
        data.push(a);
        data.push(r);
        data.push(g);
        data.push(b);
        proof {
            assert forall|k: int| 0 <= k < 4 * (n + 1) implies #[trigger] data@[k] == dot_byte(
                k,
                r,
                g,
                b,
            ) by {
                if k < 4 * n {
                    assert(data@[k] == before[k]);
                } else {
                    assert(k / 4 == n);
                }
            }
        }
        n = n + 1;
    }
    data
}

/// The colour of a state: green for a game, amber while evicting, blue while free,
/// grey where the daemon does not answer.
pub open spec fn color_of(state: Option<State>) -> (u8, u8, u8) {
    match state {
        Some(State::Gaming) => (0x4C, 0xAF, 0x50),
        Some(State::Evicting) => (0xFF, 0x98, 0x00),
        Some(State::Available) => (0x21, 0x96, 0xF3),
        None => (0x9E, 0x9E, 0x9E),
    }
}

/// The colour of a state.
pub fn color_for(state: Option<State>) -> (c: (u8, u8, u8))
    ensures
        c == color_of(state),
{
    match state {
        Some(State::Gaming) => (0x4C, 0xAF, 0x50),
        Some(State::Evicting) => (0xFF, 0x98, 0x00),
        Some(State::Available) => (0x21, 0x96, 0xF3),
        None => (0x9E, 0x9E, 0x9E),
    }
}

/// The state's word in the tooltip.
pub open spec fn label_of(state: State) -> Seq<char> {
    match state {
        State::Gaming => "Gaming"@,
        State::Available => "Available"@,
        State::Evicting => "Evicting"@,
    }
}

/// The state's word in the tooltip.
pub fn state_label(state: State) -> (r: &'static str)
    ensures
        r@ == label_of(state),
{
    match state {
        State::Gaming => "Gaming",
        State::Available => "Available",
        State::Evicting => "Evicting",
    }
}

/// Whether a unit runs, in a word.
pub open spec fn running_word(running: Option<bool>) -> Seq<char> {
    match running {
        Some(true) => "running"@,
        Some(false) => "stopped"@,
        None => "unknown"@,
    }
}

/// Whether a unit runs, in a word.
pub fn running_label(running: Option<bool>) -> (r: &'static str)
    ensures
        r@ == running_word(running),
{
    match running {
        Some(true) => "running",
        Some(false) => "stopped",
        None => "unknown",
    }
}

/// The tooltip for a daemon that answers.
pub open spec fn status_tooltip(s: SnapshotView) -> Seq<char> {
    "State: "@ + label_of(s.state) + "\nVRAM: "@ + decimal(s.gpu_vram_used_mb as nat) + " / "@
        + decimal(s.gpu_vram_total_mb as nat) + " MiB used\nOllama: "@ + running_word(
        s.ollama.running,
    ) + (if s.ollama.models.len() == 0 {
        Seq::empty()
    } else {
        " ("@ + joined(s.ollama.models, ", "@) + ")"@
    }) + "\nSince: "@ + s.since + "\nDaemon: v"@ + s.version
}

/// The tooltip: of the daemon where it answers, else of what went wrong.
pub open spec fn tooltip_of(status: Option<SnapshotView>, error: Option<Seq<char>>) -> Seq<char> {
    match (status, error) {
        (Some(s), _) => status_tooltip(s),
        (None, Some(e)) => "gpu-arbiter unreachable\n"@ + e,
        (None, None) => "gpu-arbiter: starting…"@,
    }
}

/// The tooltip.
pub fn tooltip_text(status: Option<&StatusSnapshot>, last_error: Option<&str>) -> (r: String)
    ensures
        r@ == tooltip_of(
            match status {
                Some(s) => Some(s@),
                None => None,
            },
            match last_error {
                Some(e) => Some(e@),
                None => None,
            },
        ),
{
    match status {
        Some(s) => {
            let mut o: String = "State: ".to_owned();
            o.append(state_label(s.state));
            o.append("\nVRAM: ");
            o.append(write_u64(s.gpu_vram_used_mb).as_str());
            o.append(" / ");
            o.append(write_u64(s.gpu_vram_total_mb).as_str());
            o.append(" MiB used\nOllama: ");
            o.append(running_label(s.ollama.running));
            let mut models: String = String::new();
            if s.ollama.models.len() > 0 {
                models.append(" (");
                models.append(join(s.ollama.models.as_slice(), ", ").as_str());
                models.append(")");
                proof {
                    assert(models@ =~= " ("@ + joined(texts(s.ollama.models@), ", "@) + ")"@);
                }
            }
            o.append(models.as_str());
            o.append("\nSince: ");
            o.append(s.since.as_str());
            o.append("\nDaemon: v");
            o.append(s.version.as_str());
            o
        },
        None => match last_error {
            Some(e) => {
                let mut o: String = "gpu-arbiter unreachable\n".to_owned();
                o.append(e);
                o
            },
            None => "gpu-arbiter: starting…".to_owned(),
        },
    }
}

/// A desktop notification.
#[derive(Debug, Clone, Copy, PartialEq, Eq)]
pub struct Notice {
    /// Its heading.
    pub summary: &'static str,
    /// What it says.
    pub body: &'static str,
    /// Whether it is urgent.
    pub critical: bool,
}

/// A change of state that is told.
pub open spec fn told(from: State, to: State) -> bool {
    from != to && (to != State::Gaming || from == State::Available)
}

/// The notification of a change of state, where it is told.
pub fn transition_message(from: State, to: State) -> (r: Option<Notice>)
    ensures
        r is Some <==> told(from, to),
        r is Some ==> match to {
            State::Gaming => r->0.summary@ == "GPU: Gaming"@ && r->0.body@
                == "GPU reserved for the game — Ollama evicted."@ && !r->0.critical,
            State::Available => r->0.summary@ == "GPU: Available"@ && r->0.body@
                == "Gaming ended — GPU free, Ollama restored."@ && !r->0.critical,
            State::Evicting => r->0.summary@ == "GPU: Evicting"@ && r->0.body@
                == "Game launched — reclaiming the GPU from Ollama."@ && r->0.critical,
        },
{
    match to {
        State::Gaming => if from == State::Available {
            Some(
                Notice {
                    summary: "GPU: Gaming",
                    body: "GPU reserved for the game — Ollama evicted.",
                    critical: false,
                },
            )
        } else {
            None
        },
        State::Available => if from != State::Available {
            Some(
                Notice {
                    summary: "GPU: Available",
                    body: "Gaming ended — GPU free, Ollama restored.",
                    critical: false,
                },
            )
        } else {
            None
        },
        State::Evicting => if from != State::Evicting {
            Some(
                Notice {
                    summary: "GPU: Evicting",
                    body: "Game launched — reclaiming the GPU from Ollama.",
                    critical: true,
                },
            )
        } else {
            None
        },
    }
}

// ── laws ───────────────────────────────────────────────────────────────────

/// Every change of state is told but the last step of an eviction, which was told when it
/// began; and nothing is told where nothing changed.
pub proof fn changes_are_told_once(from: State, to: State)
    ensures
        !told(from, from),
        from != to && !(from == State::Evicting && to == State::Gaming) ==> told(from, to),
        !told(State::Evicting, State::Gaming),
{
}

/// Each state, and no answer, has a colour of its own, and each state a word.
pub proof fn states_look_different(a: Option<State>, b: Option<State>)
    ensures
        color_of(a) == color_of(b) ==> a == b,
        a is Some && b is Some && label_of(a->0) == label_of(b->0) ==> a == b,
{
    reveal_strlit("Gaming");
    reveal_strlit("Available");
    reveal_strlit("Evicting");
    assert("Gaming"@.len() == 6 && "Available"@.len() == 9 && "Evicting"@.len() == 8);
}

/// An answer is shown before an error, and an error before nothing.
pub proof fn answer_is_shown_first(s: SnapshotView, e: Option<Seq<char>>, m: Seq<char>)
    ensures
        tooltip_of(Some(s), e) == tooltip_of(Some(s), None),
        tooltip_of(None, Some(m)) == "gpu-arbiter unreachable\n"@ + m,
{
}

/// The tooltip of an answer tells the state, the VRAM in use and in all, whether the unit
/// runs and with which models, since when, and the version.
pub proof fn tooltip_tells_the_answer(s: SnapshotView)
    ensures
        ({
            let runs = if s.ollama.running == Some(true) {
                "running"@
            } else if s.ollama.running == Some(false) {
                "stopped"@
            } else {
                "unknown"@
            };
            let models = if s.ollama.models.len() > 0 {
                " ("@ + joined(s.ollama.models, ", "@) + ")"@
            } else {
                Seq::empty()
            };
            tooltip_of(Some(s), None) == "State: "@ + label_of(s.state) + "\nVRAM: "@ + decimal(
                s.gpu_vram_used_mb as nat,
            ) + " / "@ + decimal(s.gpu_vram_total_mb as nat) + " MiB used\nOllama: "@ + runs + models
                + "\nSince: "@ + s.since + "\nDaemon: v"@ + s.version
        }),
{
}

/// The dot is round and in the middle: it looks the same from every side, holds the middle
/// and whatever is nearer to it than a pixel that it holds, and leaves the corners.
pub proof fn dot_is_round(x: int, y: int, a: int, b: int)
    requires
        0 <= x < 22,
        0 <= y < 22,
    ensures
        in_dot(x, y) == in_dot(y, x),
        in_dot(x, y) == in_dot(21 - x, y),
        in_dot(x, y) == in_dot(x, 21 - y),
        in_dot(10, 10),
        in_dot(2, 10),
        !in_dot(1, 10),
        !in_dot(0, 0),
        10 < a <= x && 10 < b <= y && in_dot(x, y) ==> in_dot(a, b),
{
    assert((2 * x - 21) * (2 * x - 21) == (2 * (21 - x) - 21) * (2 * (21 - x) - 21))
        by (nonlinear_arith);
    assert((2 * y - 21) * (2 * y - 21) == (2 * (21 - y) - 21) * (2 * (21 - y) - 21))
        by (nonlinear_arith);
    assert((2 * 10 - 21) * (2 * 10 - 21) == 1) by (nonlinear_arith);
    assert((2 * 2 - 21) * (2 * 2 - 21) == 289) by (nonlinear_arith);
    assert((2 * 1 - 21) * (2 * 1 - 21) == 361) by (nonlinear_arith);
    assert((2 * 0 - 21) * (2 * 0 - 21) == 441) by (nonlinear_arith);
    if 10 < a <= x && 10 < b <= y {
        assert((2 * a - 21) * (2 * a - 21) <= (2 * x - 21) * (2 * x - 21)) by (nonlinear_arith)
            requires
                10 < a <= x,
        ;
        assert((2 * b - 21) * (2 * b - 21) <= (2 * y - 21) * (2 * y - 21)) by (nonlinear_arith)
            requires
                10 < b <= y,
        ;
    }
}

/// Every pixel of the icon has the colour, and is seen just where it lies within the dot.
pub proof fn pixels_have_the_colour(x: int, y: int, r: u8, g: u8, b: u8)
    requires
        0 <= x < 22,
        0 <= y < 22,
    ensures
        ({
            let k = (y * 22 + x) * 4;
            &&& dot_byte(k, r, g, b) == (if in_dot(x, y) {
                0xFFu8
            } else {
                0u8
            })
            &&& dot_byte(k + 1, r, g, b) == r
            &&& dot_byte(k + 2, r, g, b) == g
            &&& dot_byte(k + 3, r, g, b) == b
        }),
{
    assert((y * 22 + x) % 22 == x && (y * 22 + x) / 22 == y);
}

} // verus!
