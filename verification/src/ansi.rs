//! Minimal ANSI/VT100 escape-sequence stripper.
//!
//! The log is rendered as plain text, not a terminal grid, so control
//! sequences for color, cursor movement and line clearing are consumed and
//! discarded. The filter is a small state machine: its state survives
//! between calls, so a sequence split across two reads is still recognized.
use vstd::prelude::*;

verus! {

/// Where the scanner stands inside (or outside) an escape sequence.
#[derive(Debug, Clone, Copy, PartialEq, Eq, Structural)]
pub enum AnsiState {
    /// Ordinary text.
    Normal,
    /// Just saw ESC.
    Escape,
    /// Inside `ESC [` ... final byte (0x40..=0x7E).
    Csi,
    /// Inside `ESC ]` ... BEL or `ESC \`.
    Osc,
    /// Saw ESC inside an OSC string.
    OscEscape,
}

pub const ESC: u8 = 0x1B;
pub const BEL: u8 = 0x07;
pub const LF: u8 = 0x0A;
pub const CR: u8 = 0x0D;
pub const TAB: u8 = 0x09;

/// A byte that is kept when it arrives in ordinary text: anything that is
/// not a C0 control character, plus line feed and tab.
pub open spec fn is_text_byte(b: u8) -> bool {
    b >= 0x20 || b == LF || b == TAB
}

/// The state after reading byte `b` in state `s`.
pub open spec fn next_state(s: AnsiState, b: u8) -> AnsiState {
    match s {
        AnsiState::Normal => if b == ESC { AnsiState::Escape } else { AnsiState::Normal },
        AnsiState::Escape => if b == 0x5B {
            AnsiState::Csi
        } else if b == 0x5D {
            AnsiState::Osc
        } else {
            AnsiState::Normal
        },
        AnsiState::Csi => if 0x40 <= b && b <= 0x7E { AnsiState::Normal } else { AnsiState::Csi },
        AnsiState::Osc => if b == BEL {
            AnsiState::Normal
        } else if b == ESC {
            AnsiState::OscEscape
        } else {
            AnsiState::Osc
        },
        AnsiState::OscEscape => if b == 0x5C { AnsiState::Normal } else { AnsiState::Osc },
    }
}

/// Whether byte `b`, read in state `s`, is copied to the output.
pub open spec fn emits(s: AnsiState, b: u8) -> bool {
    s == AnsiState::Normal && b != ESC && is_text_byte(b)
}

/// The state after reading all of `input`, starting in state `s`.
pub open spec fn run_state(s: AnsiState, input: Seq<u8>) -> AnsiState
    decreases input.len(),
{
    if input.len() == 0 {
        s
    } else {
        next_state(run_state(s, input.drop_last()), input.last())
    }
}

/// The bytes kept from `input`, starting in state `s`.
pub open spec fn run_output(s: AnsiState, input: Seq<u8>) -> Seq<u8>
    decreases input.len(),
{
    if input.len() == 0 {
        Seq::empty()
    } else {
        let before = run_state(s, input.drop_last());
        let kept = run_output(s, input.drop_last());
        if emits(before, input.last()) {
            kept.push(input.last())
        } else {
            kept
        }
    }
}

/// Stateful stripper of ANSI/VT100 control sequences.
#[derive(Debug)]
pub struct AnsiFilter {
    state: AnsiState,
}

impl View for AnsiFilter {
    type V = AnsiState;

    closed spec fn view(&self) -> AnsiState {
        self.state
    }
}

impl Default for AnsiFilter {
    fn default() -> (r: Self)
        ensures
            r@ == AnsiState::Normal,
    {
        AnsiFilter { state: AnsiState::Normal }
    }
}

impl AnsiFilter {
    /// A filter positioned in ordinary text.
    pub fn new() -> (r: Self)
        ensures
            r@ == AnsiState::Normal,
    {
        AnsiFilter { state: AnsiState::Normal }
    }

    /// Feed raw bytes in, get cleaned bytes out. Safe to call repeatedly
    /// with successive chunks from the same stream.
    pub fn filter(&mut self, input: &[u8]) -> (out: Vec<u8>)
        ensures
            out@ == run_output(old(self)@, input@),
            final(self)@ == run_state(old(self)@, input@),
    {
        let ghost start = self.state;
        let mut out: Vec<u8> = Vec::with_capacity(input.len());
        let mut i: usize = 0;
        while i < input.len()
            invariant
                i <= input.len(),
                out@ == run_output(start, input@.subrange(0, i as int)),
                self.state == run_state(start, input@.subrange(0, i as int)),
            decreases input.len() - i,
        {
            let b = input[i];
            proof {
                assert(input@.subrange(0, i + 1).drop_last() =~= input@.subrange(0, i as int));
            }
            match self.state {
                AnsiState::Normal => {
                    if b == ESC {
                        self.state = AnsiState::Escape;
                    } else if b == CR {
                    } else if b < 0x20 && b != LF && b != TAB {
                    } else {
                        out.push(b);
                    }
                },
                AnsiState::Escape => {
                    self.state =
                        if b == 0x5B {
                            AnsiState::Csi
                        } else if b == 0x5D {
                            AnsiState::Osc
                        } else {
                            AnsiState::Normal
                        };
                },
                AnsiState::Csi => {
                    if 0x40 <= b && b <= 0x7E {
                        self.state = AnsiState::Normal;
                    }
                },
                AnsiState::Osc => {
                    if b == BEL {
                        self.state = AnsiState::Normal;
                    } else if b == ESC {
                        self.state = AnsiState::OscEscape;
                    }
                },
                AnsiState::OscEscape => {
                    self.state =
                        if b == 0x5C {
                            AnsiState::Normal
                        } else {
                            AnsiState::Osc
                        };
                },
            }
            i = i + 1;
        }
        proof {
            assert(input@.subrange(0, input.len() as int) =~= input@);
        }
        out
    }
}

/// Feeding a stream in two chunks gives the same output, and leaves the
/// filter in the same state, as feeding it in one piece: a sequence split
/// across reads is recognized just as if it had arrived whole.
pub proof fn lemma_chunking(s: AnsiState, a: Seq<u8>, b: Seq<u8>)
    ensures
        run_state(s, a + b) == run_state(run_state(s, a), b),
        run_output(s, a + b) == run_output(s, a) + run_output(run_state(s, a), b),
    decreases b.len(),
{
    if b.len() == 0 {
        assert(a + b =~= a);
        assert(run_output(s, a) + Seq::<u8>::empty() =~= run_output(s, a));
    } else {
        assert((a + b).drop_last() =~= a + b.drop_last());
        assert((a + b).last() == b.last());
        lemma_chunking(s, a, b.drop_last());
        let mid = run_state(s, a);
        if emits(run_state(mid, b.drop_last()), b.last()) {
            assert(run_output(s, a) + run_output(mid, b.drop_last()).push(b.last()) =~= (
            run_output(s, a) + run_output(mid, b.drop_last())).push(b.last()));
        }
    }
}

/// Whatever comes out is clean text: no ESC, no carriage return and no other
/// C0 control byte besides line feed and tab, and never more bytes than went in.
pub proof fn lemma_output_is_clean(s: AnsiState, input: Seq<u8>)
    ensures
        run_output(s, input).len() <= input.len(),
        forall|i: int|
            0 <= i < run_output(s, input).len() ==> is_text_byte(#[trigger] run_output(s, input)[i])
                && run_output(s, input)[i] != ESC && run_output(s, input)[i] != CR,
    decreases input.len(),
{
    if input.len() > 0 {
        let prev = input.drop_last();
        lemma_output_is_clean(s, prev);
        let kept = run_output(s, prev);
        let out = run_output(s, input);
        assert forall|i: int| 0 <= i < out.len() implies is_text_byte(#[trigger] out[i]) && out[i] != ESC
            && out[i] != CR by {
            if i < kept.len() {
                assert(out[i] == kept[i]);
            }
        }
    }
}

/// Text without control characters passes through unchanged, and the filter
/// stays in ordinary-text mode.
pub proof fn lemma_plain_text_unchanged(input: Seq<u8>)
    requires
        forall|i: int| 0 <= i < input.len() ==> #[trigger] is_text_byte(input[i]),
    ensures
        run_output(AnsiState::Normal, input) == input,
        run_state(AnsiState::Normal, input) == AnsiState::Normal,
    decreases input.len(),
{
    if input.len() > 0 {
        let prefix = input.drop_last();
        assert forall|i: int| 0 <= i < prefix.len() implies #[trigger] is_text_byte(prefix[i]) by {
            assert(prefix[i] == input[i]);
        }
        lemma_plain_text_unchanged(prefix);
        assert(is_text_byte(input[input.len() - 1]));
        assert(prefix.push(input.last()) =~= input);
    }
}

/// One byte read in state `s`.
proof fn lemma_one_byte(s: AnsiState, b: u8)
    ensures
        run_state(s, seq![b]) == next_state(s, b),
        run_output(s, seq![b]) == (if emits(s, b) {
            seq![b]
        } else {
            Seq::<u8>::empty()
        }),
{
    assert(seq![b].drop_last() =~= Seq::<u8>::empty());
    assert(run_state(s, Seq::<u8>::empty()) == s);
    assert(run_output(s, Seq::<u8>::empty()) == Seq::<u8>::empty());
    assert(Seq::<u8>::empty().push(b) =~= seq![b]);
}

/// Two bytes read in state `s`, neither of them kept.
proof fn lemma_two_bytes_dropped(s: AnsiState, a: u8, b: u8)
    requires
        !emits(s, a),
        !emits(next_state(s, a), b),
    ensures
        run_state(s, seq![a, b]) == next_state(next_state(s, a), b),
        run_output(s, seq![a, b]) == Seq::<u8>::empty(),
{
    assert(seq![a, b] =~= seq![a] + seq![b]);
    lemma_chunking(s, seq![a], seq![b]);
    lemma_one_byte(s, a);
    lemma_one_byte(next_state(s, a), b);
    assert(Seq::<u8>::empty() + Seq::<u8>::empty() =~= Seq::<u8>::empty());
}

/// Bytes that leave state `s` as it is and are not kept.
proof fn lemma_absorbed(s: AnsiState, input: Seq<u8>)
    requires
        forall|i: int| 0 <= i < input.len() ==> next_state(s, #[trigger] input[i]) == s && !emits(s, input[i]),
    ensures
        run_state(s, input) == s,
        run_output(s, input) == Seq::<u8>::empty(),
    decreases input.len(),
{
    if input.len() > 0 {
        let prefix = input.drop_last();
        assert forall|i: int| 0 <= i < prefix.len() implies next_state(s, #[trigger] prefix[i]) == s
            && !emits(s, prefix[i]) by {
            assert(prefix[i] == input[i]);
        }
        lemma_absorbed(s, prefix);
        assert(next_state(s, input[input.len() - 1]) == s);
    }
}

/// Plain text: printable bytes, line feeds and tabs.
pub open spec fn plain(text: Seq<u8>) -> bool {
    forall|i: int| 0 <= i < text.len() ==> #[trigger] text[i] >= 0x20 || text[i] == 0x0A || text[i] == 0x09
}

/// In ordinary text, a byte from 0x20 up, a line feed or a tab is kept;
/// every other byte (ESC, carriage return and the other C0 controls) is
/// dropped; only ESC leaves ordinary text.
pub proof fn lemma_text_byte(b: u8)
    ensures
        run_output(AnsiState::Normal, seq![b]) == (if b >= 0x20 || b == 0x0A || b == 0x09 {
            seq![b]
        } else {
            Seq::<u8>::empty()
        }),
        run_state(AnsiState::Normal, seq![b]) == (if b == 0x1B {
            AnsiState::Escape
        } else {
            AnsiState::Normal
        }),
{
    lemma_one_byte(AnsiState::Normal, b);
}

/// A control sequence, `ESC [`, any bytes outside 0x40..=0x7E (parameters
/// and intermediates), and a final byte in 0x40..=0x7E, is removed whole:
/// the plain text after it comes out unchanged, back in ordinary text.
pub proof fn lemma_csi_removed(params: Seq<u8>, last: u8, text: Seq<u8>)
    requires
        forall|i: int| 0 <= i < params.len() ==> !(0x40 <= #[trigger] params[i] && params[i] <= 0x7E),
        0x40 <= last <= 0x7E,
        plain(text),
    ensures
        run_output(AnsiState::Normal, seq![0x1Bu8, 0x5Bu8] + params + seq![last] + text) == text,
        run_state(AnsiState::Normal, seq![0x1Bu8, 0x5Bu8] + params + seq![last] + text)
            == AnsiState::Normal,
{
    let head = seq![0x1Bu8, 0x5Bu8];
    lemma_two_bytes_dropped(AnsiState::Normal, 0x1Bu8, 0x5Bu8);
    lemma_absorbed(AnsiState::Csi, params);
    lemma_one_byte(AnsiState::Csi, last);
    lemma_plain_text_unchanged(text);
    lemma_chunking(AnsiState::Normal, head, params);
    lemma_chunking(AnsiState::Normal, head + params, seq![last]);
    lemma_chunking(AnsiState::Normal, head + params + seq![last], text);
    assert(Seq::<u8>::empty() + Seq::<u8>::empty() =~= Seq::<u8>::empty());
    assert(Seq::<u8>::empty() + text =~= text);
}

/// An operating-system command, `ESC ]`, any bytes but BEL and ESC, then
/// BEL or `ESC \`, is removed whole: the plain text after it comes out
/// unchanged, back in ordinary text.
pub proof fn lemma_osc_removed(body: Seq<u8>, by_bel: bool, text: Seq<u8>)
    requires
        forall|i: int| 0 <= i < body.len() ==> #[trigger] body[i] != 0x07 && body[i] != 0x1B,
        plain(text),
    ensures
        ({
            let end = if by_bel { seq![0x07u8] } else { seq![0x1Bu8, 0x5Cu8] };
            &&& run_output(AnsiState::Normal, seq![0x1Bu8, 0x5Du8] + body + end + text) == text
            &&& run_state(AnsiState::Normal, seq![0x1Bu8, 0x5Du8] + body + end + text)
                == AnsiState::Normal
        }),
{
    let head = seq![0x1Bu8, 0x5Du8];
    let end = if by_bel { seq![0x07u8] } else { seq![0x1Bu8, 0x5Cu8] };
    lemma_two_bytes_dropped(AnsiState::Normal, 0x1Bu8, 0x5Du8);
    lemma_absorbed(AnsiState::Osc, body);
    if by_bel {
        lemma_one_byte(AnsiState::Osc, 0x07u8);
    } else {
        lemma_two_bytes_dropped(AnsiState::Osc, 0x1Bu8, 0x5Cu8);
    }
    lemma_plain_text_unchanged(text);
    lemma_chunking(AnsiState::Normal, head, body);
    lemma_chunking(AnsiState::Normal, head + body, end);
    lemma_chunking(AnsiState::Normal, head + body + end, text);
    assert(Seq::<u8>::empty() + Seq::<u8>::empty() =~= Seq::<u8>::empty());
    assert(Seq::<u8>::empty() + text =~= text);
}

/// ESC followed by any byte other than `[` and `]` is a two-byte escape and
/// is removed: the plain text after it comes out unchanged.
pub proof fn lemma_short_escape_removed(c: u8, text: Seq<u8>)
    requires
        c != 0x5B,
        c != 0x5D,
        plain(text),
    ensures
        run_output(AnsiState::Normal, seq![0x1Bu8, c] + text) == text,
        run_state(AnsiState::Normal, seq![0x1Bu8, c] + text) == AnsiState::Normal,
{
    lemma_two_bytes_dropped(AnsiState::Normal, 0x1Bu8, c);
    lemma_plain_text_unchanged(text);
    lemma_chunking(AnsiState::Normal, seq![0x1Bu8, c], text);
    assert(Seq::<u8>::empty() + text =~= text);
}

} // verus!
