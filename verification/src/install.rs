//! The text of the package installer's progress bars.

use vstd::prelude::*;
use vstd::string::StringSliceAdditionalSpecFns;
use crate::text::str_bytes;

verus! {

/// The number of steps of the animated progress bar.
pub const PROGRESS_STEPS: usize = 20;

/// `n` copies of `b`.
pub open spec fn repeat(b: u8, n: nat) -> Seq<u8> {
    Seq::new(n, |i: int| b)
}

/// The decimal digits of `n`, without leading zeros.
pub open spec fn decimal(n: nat) -> Seq<u8>
    decreases n,
{
    if n < 10 {
        seq![(48 + n) as u8]
    } else {
        decimal(n / 10).push((48 + n % 10) as u8)
    }
}

/// Appends the bytes of `s` to `v`.
fn push_str(v: &mut Vec<u8>, s: &str)
    ensures
        final(v)@ == old(v)@ + s.spec_bytes(),
{
    let b = str_bytes(s);
    let mut i: usize = 0;
    while i < b.len()
        invariant
            i <= b@.len(),
            b@ == s.spec_bytes(),
            v@ == old(v)@ + b@.take(i as int),
        decreases b@.len() - i,
    {
        v.push(b[i]);
        i = i + 1;
        assert(v@ =~= old(v)@ + b@.take(i as int));
    }
    assert(b@.take(i as int) =~= b@);
}

/// Appends `n` copies of `b` to `v`.
fn push_repeat(v: &mut Vec<u8>, b: u8, n: usize)
    ensures
        final(v)@ == old(v)@ + repeat(b, n as nat),
{
    let mut i: usize = 0;
    while i < n
        invariant
            i <= n,
            v@ == old(v)@ + repeat(b, i as nat),
        decreases n - i,
    {
        v.push(b);
        i = i + 1;
        assert(v@ =~= old(v)@ + repeat(b, i as nat));
    }
}

/// Appends the decimal digits of `n` to `v`.
fn push_decimal(v: &mut Vec<u8>, n: usize)
    ensures
        final(v)@ == old(v)@ + decimal(n as nat),
    decreases n,
{
    if n >= 10 {
        push_decimal(v, n / 10);
    }
    v.push((48 + n % 10) as u8);
    assert(v@ =~= old(v)@ + decimal(n as nat));
}

/// The spinner character shown at a step: `|`, `/`, `-` and `\` in turn.
pub open spec fn spinner(step: nat) -> u8 {
    let k = step % 4;
    if k == 0 {
        124u8
    } else if k == 1 {
        47u8
    } else if k == 2 {
        45u8
    } else {
        92u8
    }
}

/// The text the animated progress bar prints at `step` (0 to
/// `PROGRESS_STEPS`): a carriage return, the bar of `step` `=` signs followed,
/// before the last step, by `>` and spaces up to 20 places, the percentage
/// (five per step), and the spinner.
pub open spec fn progress_frame_text(step: nat) -> Seq<u8> {
    "\r[".spec_bytes() + repeat(61u8, step) + (if step < 20 {
        seq![62u8] + repeat(32u8, (19 - step) as nat)
    } else {
        Seq::empty()
    }) + "] ".spec_bytes() + decimal(step * 5) + "% ".spec_bytes() + seq![spinner(step), 32u8]
}

/// The text of the animated progress bar at `step` (see `progress_frame_text`).
pub fn progress_frame(step: usize) -> (frame: Vec<u8>)
    requires
        step <= PROGRESS_STEPS,
    ensures
        frame@ == progress_frame_text(step as nat),
{
    let mut v: Vec<u8> = Vec::new();
    push_str(&mut v, "\r[");
    push_repeat(&mut v, 61u8, step);
    let ghost after_bar = v@;
    if step < 20 {
        v.push(62u8);
        push_repeat(&mut v, 32u8, 19 - step);
        assert(v@ =~= after_bar + (seq![62u8] + repeat(32u8, (19 - step) as nat)));
    } else {
        assert(v@ =~= after_bar + Seq::<u8>::empty());
    }
    push_str(&mut v, "] ");
    push_decimal(&mut v, step * 5);
    push_str(&mut v, "% ");
    let spin: u8 = match step % 4 {
        0 => 124u8,
        1 => 47u8,
        2 => 45u8,
        _ => 92u8,
    };
    v.push(spin);
    v.push(32u8);
    assert(v@ =~= progress_frame_text(step as nat));
    v
}

/// The number of steps of the plain download bar.
pub const DOWNLOAD_STEPS: usize = 10;

/// The line the plain download bar prints at `step` (1 to `DOWNLOAD_STEPS`):
/// escape sequences that move up a line and clear it, then the bar of
/// `2 * step` `=` signs, a `>`, spaces up to 20 places, and the percentage
/// (ten per step), then a newline.
pub open spec fn download_line_text(step: nat) -> Seq<u8> {
    "\x1B[1A".spec_bytes() + "\x1B[2K".spec_bytes() + "Downloading: [".spec_bytes() + repeat(
        61u8,
        step * 2,
    ) + seq![62u8] + repeat(32u8, (20 - step * 2) as nat) + "] ".spec_bytes() + decimal(step * 10)
        + "%\n".spec_bytes()
}

/// The line of the plain download bar at `step` (see `download_line_text`).
pub fn download_line(step: usize) -> (line: Vec<u8>)
    requires
        1 <= step <= DOWNLOAD_STEPS,
    ensures
        line@ == download_line_text(step as nat),
{
    let mut v: Vec<u8> = Vec::new();
    push_str(&mut v, "\x1B[1A");
    push_str(&mut v, "\x1B[2K");
    push_str(&mut v, "Downloading: [");
    push_repeat(&mut v, 61u8, step * 2);
    v.push(62u8);
    push_repeat(&mut v, 32u8, 20 - step * 2);
    push_str(&mut v, "] ");
    push_decimal(&mut v, step * 10);
    push_str(&mut v, "%\n");
    assert(v@ =~= download_line_text(step as nat));
    v
}

} // verus!

verus! {

/// The animated bar at `step` is a carriage return and `[`, then 20 places:
/// `step` of them `=`, then, before the last step, a `>` and spaces; then `] `,
/// the percentage `step * 5` in decimal, `% `, the spinner and a space.
pub proof fn lemma_progress_frame_shape(step: nat)
    requires
        step <= PROGRESS_STEPS,
    ensures
        ({
            let f = progress_frame_text(step);
            let bar = f.subrange(2, 22);
            &&& f.len() == 22 + 2 + decimal(step * 5).len() + 2 + 2
            &&& f[0] == 13 && f[1] == 91
            &&& forall|i: int| 0 <= i < step ==> bar[i] == 61
            &&& step < 20 ==> bar[step as int] == 62
            &&& forall|i: int| step < i < 20 ==> bar[i] == 32
            &&& f.subrange(22, 24) == seq![93u8, 32u8]
            &&& f.subrange(24, 24 + decimal(step * 5).len() as int) == decimal(step * 5)
        }),
{
    reveal_strlit("\r[");
    reveal_strlit("] ");
    reveal_strlit("% ");
    vstd::string::is_ascii_spec_bytes("\r[");
    vstd::string::is_ascii_spec_bytes("] ");
    vstd::string::is_ascii_spec_bytes("% ");
    let f = progress_frame_text(step);
    let d = decimal(step * 5);
    assert(f.subrange(22, 24) =~= seq![93u8, 32u8]);
    assert(f.subrange(24, 24 + d.len() as int) =~= d);
}

/// The plain download line at `step` shows, after its two escape sequences
/// and "Downloading: [", 21 places: `2 * step` of them `=`, then `>`, then
/// spaces; then `] `, the percentage `step * 10` in decimal, `%` and a newline.
pub proof fn lemma_download_line_shape(step: nat)
    requires
        1 <= step <= DOWNLOAD_STEPS,
    ensures
        ({
            let l = download_line_text(step);
            let bar = l.subrange(22, 43);
            &&& l.len() == 43 + 2 + decimal(step * 10).len() + 2
            &&& forall|i: int| 0 <= i < 2 * step ==> bar[i] == 61
            &&& bar[2 * step as int] == 62
            &&& forall|i: int| 2 * step < i < 21 ==> bar[i] == 32
            &&& l.subrange(43, 45) == seq![93u8, 32u8]
            &&& l.subrange(45, 45 + decimal(step * 10).len() as int) == decimal(step * 10)
            &&& l.last() == 10
        }),
{
    reveal_strlit("\x1B[1A");
    reveal_strlit("\x1B[2K");
    reveal_strlit("Downloading: [");
    reveal_strlit("] ");
    reveal_strlit("%\n");
    vstd::string::is_ascii_spec_bytes("\x1B[1A");
    vstd::string::is_ascii_spec_bytes("\x1B[2K");
    vstd::string::is_ascii_spec_bytes("Downloading: [");
    vstd::string::is_ascii_spec_bytes("] ");
    vstd::string::is_ascii_spec_bytes("%\n");
    let l = download_line_text(step);
    let d = decimal(step * 10);
    assert(l.subrange(43, 45) =~= seq![93u8, 32u8]);
    assert(l.subrange(45, 45 + d.len() as int) =~= d);
}

} // verus!
