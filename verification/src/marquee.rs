//! Marquee animation for a selected row whose title overflows its viewport.
//!
//! The marquee scrolls left one column at a time, snaps back right at a
//! much higher rate once the tail of the text (plus a trailing hold margin)
//! has come into view, and clamps the scroll so it never exposes more than
//! a quarter viewport of blank space past the end of the text.

use vstd::prelude::*;
use crate::text::{
    char_cols, str_cols, str_chars, chars_to_string, char_width, blanks, spec_truncate,
    truncate_to_width, lemma_str_cols_push,
};

verus! {

/// Columns of leftward shift at which the scroll begins to move.
pub const MARQUEE_DELAY: i64 = 40;

/// Trailing hold margin, in shift steps, before the scroll turns around.
pub const MARQUEE_DELAY_RETURN: i64 = 120;

#[derive(Clone, Copy, Debug, PartialEq, Eq, Structural)]
pub enum MarqueeDirection {
    Left,
    Right,
}

/// Animation state of the selected row's title.
#[derive(Clone, Copy, Debug, PartialEq, Eq, Structural)]
pub struct MarqueeState {
    /// Current scroll offset in columns; never negative.
    pub shift: i64,
    pub direction: MarqueeDirection,
    /// Wall-clock tick at which the shift last moved.
    pub tick_count: u64,
}

impl MarqueeState {
    /// The state at the scroll origin: no shift, scrolling left.
    pub fn origin() -> (r: MarqueeState)
        ensures
            r.shift == 0,
            r.direction == MarqueeDirection::Left,
            r.tick_count == 0,
    {
        MarqueeState { shift: 0, direction: MarqueeDirection::Left, tick_count: 0 }
    }

    /// Resets the scroll to the origin, keeping the tick counter.
    ///
    /// Every selection change goes through this reset.
    pub fn reset(&mut self)
        ensures
            final(self).shift == 0,
            final(self).direction == MarqueeDirection::Left,
            final(self).tick_count == old(self).tick_count,
    {
        self.shift = 0;
        self.direction = MarqueeDirection::Left;
    }

    /// Advances the animation for wall-clock tick `current_tick`: one column
    /// further left per fresh tick, or one column back toward the origin,
    /// flipping to leftward scroll on reaching it.
    pub fn tick(&mut self, current_tick: u64)
        requires
            old(self).shift >= 0,
        ensures
            *final(self) == spec_tick(*old(self), current_tick),
            final(self).shift >= 0,
    {
        if current_tick != self.tick_count {
            self.tick_count = current_tick;
            match self.direction {
                MarqueeDirection::Left => {
                    if self.shift < i64::MAX {
                        self.shift = self.shift + 1;
                    }
                },
                MarqueeDirection::Right => {
                    self.shift = self.shift - 1;
                    if self.shift <= 0 {
                        self.shift = 0;
                        self.direction = MarqueeDirection::Left;
                    }
                },
            }
        }
    }
}

/// One animation step of the marquee state.
pub open spec fn spec_tick(m: MarqueeState, current_tick: u64) -> MarqueeState {
    if current_tick == m.tick_count {
        m
    } else if m.direction == MarqueeDirection::Left {
        let s2 = if m.shift < i64::MAX {
            (m.shift + 1) as i64
        } else {
            m.shift
        };
        MarqueeState { shift: s2, direction: m.direction, tick_count: current_tick }
    } else {
        if m.shift - 1 <= 0 {
            MarqueeState { shift: 0, direction: MarqueeDirection::Left, tick_count: current_tick }
        } else {
            MarqueeState {
                shift: (m.shift - 1) as i64,
                direction: m.direction,
                tick_count: current_tick,
            }
        }
    }
}

/// Direction after the turn-around test: the scroll flips once the
/// unscrolled remainder of the text plus the hold margin would fit the
/// viewport, or if the shift has gone negative.
pub open spec fn spec_flip(text_cols: int, shift: int, max_w: int, dir: MarqueeDirection)
    -> MarqueeDirection {
    if text_cols - shift + MARQUEE_DELAY_RETURN < max_w || shift == -1 {
        if dir == MarqueeDirection::Left {
            MarqueeDirection::Right
        } else {
            MarqueeDirection::Left
        }
    } else {
        dir
    }
}

/// Shift actually applied: leftward scroll holds still for the first
/// `MARQUEE_DELAY` ticks; rightward scroll applies the shift as is.
pub open spec fn spec_effective_shift(shift: int, dir: MarqueeDirection) -> int {
    if dir == MarqueeDirection::Left {
        if shift < MARQUEE_DELAY {
            0
        } else {
            shift - MARQUEE_DELAY
        }
    } else {
        shift
    }
}

/// The applied shift, clamped so that no more than a quarter viewport of
/// blank space is ever exposed past the end of the text.
pub open spec fn spec_clamp_shift(text_cols: int, max_w: int, eff: int) -> int {
    if text_cols - eff + max_w / 4 < max_w {
        text_cols - max_w + max_w / 4
    } else {
        eff
    }
}

/// The clamped shift never exceeds `text_cols - max_w + max_w / 4`.
pub proof fn lemma_clamp_bound(text_cols: int, max_w: int, eff: int)
    ensures
        spec_clamp_shift(text_cols, max_w, eff) <= text_cols - max_w + max_w / 4,
{
}

/// The visible window of a marquee row: the characters of `s` after
/// skipping `clamp` columns, cut to `max_w` columns and padded with
/// blanks.  `w` counts columns consumed so far and `outw` columns
/// emitted so far.  A leading character cut in half by the skip leaves
/// one blank column in place of its double-width glyph.
pub open spec fn slice_acc(s: Seq<char>, clamp: int, w: int, max_w: int, outw: int) -> Seq<char>
    decreases s.len(),
{
    if s.len() == 0 {
        blanks(max_w - outw)
    } else {
        let cw = char_cols(s[0]) as int;
        let w2 = w + cw;
        if w2 <= clamp {
            slice_acc(s.drop_first(), clamp, w2, max_w, outw)
        } else {
            let pre: Seq<char> = if w2 - cw < clamp && cw == 2 {
                seq![' ']
            } else {
                Seq::empty()
            };
            let outw2 = outw + pre.len();
            if outw2 + cw > max_w {
                pre + blanks(max_w - outw2)
            } else {
                pre + seq![s[0]] + slice_acc(s.drop_first(), clamp, w2, max_w, outw2 + cw)
            }
        }
    }
}

/// What the marquee returns for the selected row: the text itself when it
/// fits, else the clamped window at the given shift, with the direction
/// after the turn-around test.
pub open spec fn spec_marquee(s: Seq<char>, max_w: int, shift: int, dir: MarqueeDirection) -> (
    Seq<char>,
    MarqueeDirection,
) {
    let tc = str_cols(s) as int;
    if tc <= max_w {
        (spec_truncate(s, max_w), dir)
    } else {
        let d2 = spec_flip(tc, shift, max_w, dir);
        let eff = spec_effective_shift(shift, d2);
        let clamp = spec_clamp_shift(tc, max_w, eff);
        (slice_acc(s, clamp, 0, max_w, 0), d2)
    }
}

/// Renders the marquee window of `s` for a viewport of `max_width`
/// columns at scroll offset `shift`, and turns the scroll around when the
/// tail of the text has come into view.
pub fn slice_text_marquee(s: &str, max_width: usize, shift: i64, dir: MarqueeDirection) -> (r: (
    String,
    MarqueeDirection,
))
    requires
        str_cols(s@) <= 0x7fff_ffff,
        max_width <= 0x7fff_ffff,
        -0x7fff_ffff <= shift <= 0x7fff_ffff,
    ensures
        (r.0@, r.1) == spec_marquee(s@, max_width as int, shift as int, dir),
{
    let chars = str_chars(s);
    let n = chars.len();
    let mut tc: i64 = 0;
    let mut i: usize = 0;
    while i < n
        invariant
            n == chars@.len(),
            chars@ == s@,
            i <= n,
            tc == str_cols(chars@.take(i as int)),
            str_cols(chars@) <= 0x7fff_ffff,
        decreases n - i,
    {
        let cw = char_width(chars[i]);
        proof {
            assert(chars@.take(i + 1).drop_last() =~= chars@.take(i as int));
            assert(chars@.take(i + 1).last() == chars@[i as int]);
            lemma_cols_prefix_all(chars@, i + 1);
        }
        tc = tc + cw as i64;
        i = i + 1;
    }
    proof {
        assert(chars@.take(n as int) =~= chars@);
    }
    let max_w = max_width as i64;

    if tc <= max_w {
        return (truncate_to_width(s, max_width), dir);
    }

    let mut d2 = dir;
    if tc - shift + MARQUEE_DELAY_RETURN < max_w || shift == -1 {
        d2 = match d2 {
            MarqueeDirection::Left => MarqueeDirection::Right,
            MarqueeDirection::Right => MarqueeDirection::Left,
        };
    }

    let eff: i64 = match d2 {
        MarqueeDirection::Left => {
            if shift < MARQUEE_DELAY {
                0
            } else {
                shift - MARQUEE_DELAY
            }
        },
        MarqueeDirection::Right => shift,
    };

    let clamp: i64 = if tc - eff + max_w / 4 < max_w {
        tc - max_w + max_w / 4
    } else {
        eff
    };
    proof {
        assert(clamp == spec_clamp_shift(str_cols(s@) as int, max_w as int, eff as int));
    }

    let mut out: Vec<char> = Vec::new();
    let mut w: i64 = 0;
    let mut outw: i64 = 0;
    let mut i: usize = 0;
    let mut broke: bool = false;
    let ghost whole = slice_acc(chars@, clamp as int, 0, max_w as int, 0);
    proof {
        assert(chars@.skip(0) =~= chars@);
    }
    while i < n && !broke
        invariant
            n == chars@.len(),
            chars@ == s@,
            i <= n,
            str_cols(chars@) <= 0x7fff_ffff,
            w == str_cols(chars@.take(i as int)),
            0 <= outw <= max_w + 1,
            !broke && outw > 0 ==> w >= clamp,
            max_w == max_width as int,
            max_w <= 0x7fff_ffff,
            outw == str_cols(out@),
            !broke ==> whole == out@ + slice_acc(
                chars@.skip(i as int),
                clamp as int,
                w as int,
                max_w as int,
                outw as int,
            ),
            broke ==> whole == out@ + blanks(max_w - outw),
        decreases n - i + (if broke { 0int } else { 1int }),
    {
        let c = chars[i];
        let cw = char_width(c) as i64;
        proof {
            assert(chars@.skip(i as int)[0] == chars@[i as int]);
            assert(chars@.skip(i as int).drop_first() =~= chars@.skip(i as int + 1));
            lemma_cols_le(chars@, i as int);
        }
        proof {
            assert(chars@.take(i + 1).drop_last() =~= chars@.take(i as int));
            assert(chars@.take(i + 1).last() == chars@[i as int]);
        }
        let w2 = w + cw;
        if w2 <= clamp {
            w = w2;
            i = i + 1;
        } else {
            if w2 - cw < clamp && cw == 2 {
                let blank_cols = char_width(' ');
                proof {
                    lemma_str_cols_push(out@, ' ');
                }
                out.push(' ');
                outw = outw + 1;
            }
            if outw + cw > max_w {
                broke = true;
            } else {
                proof {
                    lemma_str_cols_push(out@, c);
                }
                out.push(c);
                outw = outw + cw;
                w = w2;
                i = i + 1;
            }
        }
    }
    proof {
        if !broke {
            assert(chars@.skip(n as int).len() == 0);
        }
    }
    while outw < max_w
        invariant
            outw == str_cols(out@),
            whole == out@ + blanks(max_w - outw),
        decreases max_w - outw,
    {
        let blank_cols = char_width(' ');
        proof {
            lemma_str_cols_push(out@, ' ');
            assert(out@.push(' ') + blanks(max_w - outw - 1) =~= out@ + blanks(max_w - outw));
        }
        out.push(' ');
        outw = outw + 1;
    }
    proof {
        assert(blanks(max_w - outw).len() == 0);
        assert(out@ + blanks(max_w - outw) =~= out@);
        assert(out@ == whole);
    }
    (chars_to_string(&out), d2)
}

/// Column totals of prefixes never pass the total of the whole.
proof fn lemma_cols_prefix_all(s: Seq<char>, k: int)
    requires
        0 <= k <= s.len(),
    ensures
        str_cols(s.take(k)) <= str_cols(s),
    decreases s.len() - k,
{
    if k == s.len() {
        assert(s.take(k) =~= s);
    } else {
        lemma_cols_prefix_all(s, k + 1);
        assert(s.take(k + 1).drop_last() =~= s.take(k));
    }
}

/// Consuming one more character keeps the running column total within the
/// total of the whole.
proof fn lemma_cols_le(s: Seq<char>, i: int)
    requires
        0 <= i < s.len(),
    ensures
        str_cols(s.take(i)) + char_cols(s[i]) <= str_cols(s),
{
    assert(s.take(i + 1).drop_last() =~= s.take(i));
    assert(s.take(i + 1).last() == s[i]);
    lemma_cols_prefix_all(s, i + 1);
}

} // verus!
