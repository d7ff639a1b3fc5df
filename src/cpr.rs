//! Removal of Cursor Position Reports (`ESC [ <digits and ;> R`) from byte
//! streams, in a whole-buffer mode and in a byte-at-a-time mode.

use vstd::prelude::*;

verus! {

/// The escape byte that opens every control sequence.
pub const ESC: u8 = 0x1b;

/// The second byte of a Control Sequence Introducer (`[`).
pub const CSI_OPEN: u8 = 0x5b;

/// The final byte of a Cursor Position Report (`R`).
pub const CPR_FINAL: u8 = 0x52;

/// The separator between the numbers of a report (`;`).
pub const PARAM_SEPARATOR: u8 = 0x3b;

/// A byte that ends a control sequence (0x40 through 0x7E).
pub open spec fn is_final_byte(b: u8) -> bool {
    0x40 <= b && b <= 0x7e
}

/// A byte that may stand between `ESC [` and `R` in a report: an ASCII digit or `;`.
pub open spec fn is_param_byte(b: u8) -> bool {
    (0x30 <= b && b <= 0x39) || b == PARAM_SEPARATOR
}

/// Every byte of `s` is a digit or `;`.
pub open spec fn all_params(s: Seq<u8>) -> bool {
    forall|k: int| 0 <= k < s.len() ==> is_param_byte(#[trigger] s[k])
}

/// `s` begins with the two bytes `ESC [`.
pub open spec fn starts_csi(s: Seq<u8>) -> bool {
    s.len() >= 2 && s[0] == ESC && s[1] == CSI_OPEN
}

/// The index of the first final byte of `s`, or `s.len()` where there is none.
pub open spec fn final_pos(s: Seq<u8>) -> nat
    decreases s.len(),
{
    if s.len() == 0 {
        0
    } else if is_final_byte(s[0]) {
        0
    } else {
        1 + final_pos(s.drop_first())
    }
}

/// A complete control sequence: `ESC [`, then bytes none of which is final,
/// then one final byte.
pub open spec fn is_csi(s: Seq<u8>) -> bool {
    &&& s.len() >= 3
    &&& starts_csi(s)
    &&& forall|k: int| 2 <= k < s.len() - 1 ==> !is_final_byte(#[trigger] s[k])
    &&& is_final_byte(s.last())
}

/// A complete Cursor Position Report: `ESC [`, digits and `;`, then `R`.
pub open spec fn is_cpr(s: Seq<u8>) -> bool {
    &&& s.len() >= 3
    &&& starts_csi(s)
    &&& all_params(s.subrange(2, s.len() - 1))
    &&& s.last() == CPR_FINAL
}

/// What the filter makes of `s`, read from the front: at each `ESC [` the
/// sequence runs to its first final byte; it is dropped when that byte is `R`
/// and all bytes before it are digits or `;`, kept whole otherwise, and kept to
/// the end of `s` when no final byte follows. Every other byte is kept.
pub open spec fn cpr_filtered(s: Seq<u8>) -> Seq<u8>
    decreases s.len(),
{
    if s.len() == 0 {
        Seq::empty()
    } else if starts_csi(s) {
        let body = s.skip(2);
        let k = final_pos(body) as int;
        if k >= body.len() {
            s
        } else if body[k] == CPR_FINAL && all_params(body.take(k)) {
            cpr_filtered(s.skip(k + 3))
        } else {
            s.take(k + 3) + cpr_filtered(s.skip(k + 3))
        }
    } else {
        seq![s[0]] + cpr_filtered(s.skip(1))
    }
}

/// `final_pos(s)` is `m` when no byte before `m` is final and the byte at `m`,
/// if there is one, is.
pub proof fn lemma_final_pos_at(s: Seq<u8>, m: int)
    requires
        0 <= m <= s.len(),
        forall|k: int| 0 <= k < m ==> !is_final_byte(#[trigger] s[k]),
        m < s.len() ==> is_final_byte(s[m]),
    ensures
        final_pos(s) == m,
    decreases m,
{
    if m > 0 {
        let t = s.drop_first();
        assert forall|k: int| 0 <= k < m - 1 implies !is_final_byte(#[trigger] t[k]) by {
            assert(t[k] == s[k + 1]);
        }
        lemma_final_pos_at(t, m - 1);
    }
}

/// `final_pos` never passes the end of the sequence.
pub proof fn lemma_final_pos_bound(s: Seq<u8>)
    ensures
        final_pos(s) <= s.len(),
        final_pos(s) < s.len() ==> is_final_byte(s[final_pos(s) as int]),
        forall|k: int| 0 <= k < final_pos(s) ==> !is_final_byte(#[trigger] s[k]),
    decreases s.len(),
{
    if s.len() > 0 && !is_final_byte(s[0]) {
        let t = s.drop_first();
        lemma_final_pos_bound(t);
        assert forall|k: int| 0 <= k < final_pos(s) implies !is_final_byte(#[trigger] s[k]) by {
            if k > 0 {
                assert(s[k] == t[k - 1]);
            }
        }
    }
}

fn final_byte(b: u8) -> (r: bool)
    ensures
        r == is_final_byte(b),
{
    0x40 <= b && b <= 0x7e
}

fn param_byte(b: u8) -> (r: bool)
    ensures
        r == is_param_byte(b),
{
    (0x30 <= b && b <= 0x39) || b == PARAM_SEPARATOR
}

/// Appends `data[lo..hi]` to `out`.
fn push_range(out: &mut Vec<u8>, data: &[u8], lo: usize, hi: usize)
    requires
        lo <= hi <= data@.len(),
    ensures
        final(out)@ == old(out)@ + data@.subrange(lo as int, hi as int),
{
    let mut k: usize = lo;
    while k < hi
        invariant
            lo <= k <= hi <= data@.len(),
            out@ == old(out)@ + data@.subrange(lo as int, k as int),
        decreases hi - k,
    {
        out.push(data[k]);
        k = k + 1;
        assert(out@ =~= old(out)@ + data@.subrange(lo as int, k as int));
    }
}

/// Filters a whole buffer: every Cursor Position Report is removed, every other
/// byte is kept in order. No state carries over between calls.
pub fn filter_control_sequences(data: &[u8]) -> (r: Vec<u8>)
    ensures
        r@ == cpr_filtered(data@),
{
    let mut result: Vec<u8> = Vec::with_capacity(data.len());
    let n = data.len();
    let mut i: usize = 0;
    assert(data@.skip(0) =~= data@);
    while i < n
        invariant
            n == data@.len(),
            i <= n,
            cpr_filtered(data@) == result@ + cpr_filtered(data@.skip(i as int)),
        decreases n - i,
    {
        let ghost s = data@.skip(i as int);
        if data[i] == ESC && i + 1 < n && data[i + 1] == CSI_OPEN {
            let start = i;
            let mut j: usize = i + 2;
            let mut params_only = true;
            while j < n && !final_byte(data[j])
                invariant
                    n == data@.len(),
                    start + 2 <= j <= n,
                    forall|k: int| start + 2 <= k < j ==> !is_final_byte(#[trigger] data@[k]),
                    params_only == (forall|k: int|
                        start + 2 <= k < j ==> is_param_byte(#[trigger] data@[k])),
                decreases n - j,
            {
                if !param_byte(data[j]) {
                    params_only = false;
                }
                j = j + 1;
            }
            let ghost body = s.skip(2);
            let ghost m = j - start - 2;
            proof {
                assert forall|k: int| 0 <= k < m implies !is_final_byte(#[trigger] body[k]) by {
                    assert(body[k] == data@[start + 2 + k]);
                }
                if m < body.len() {
                    assert(body[m] == data@[j as int]);
                }
                lemma_final_pos_at(body, m);
                assert(params_only == all_params(body.take(m))) by {
                    if params_only {
                        assert forall|k: int| 0 <= k < m implies is_param_byte(
                            #[trigger] body.take(m)[k],
                        ) by {
                            assert(body.take(m)[k] == data@[start + 2 + k]);
                        }
                    } else {
                        let k = choose|k: int|
                            start + 2 <= k < j && !is_param_byte(#[trigger] data@[k]);
                        assert(body.take(m)[k - start - 2] == data@[k]);
                    }
                }
            }
            if j == n {
                push_range(&mut result, data, start, n);
                assert(s =~= data@.subrange(start as int, n as int));
                assert(data@.skip(n as int) =~= Seq::<u8>::empty());
                i = n;
            } else {
                assert(s.skip(m + 3) =~= data@.skip(j + 1));
                if data[j] == CPR_FINAL && params_only {
                } else {
                    push_range(&mut result, data, start, j + 1);
                    assert(s.take(m + 3) =~= data@.subrange(start as int, j + 1));
                }
                i = j + 1;
            }
        } else {
            result.push(data[i]);
            assert(s.skip(1) =~= data@.skip(i + 1));
            i = i + 1;
        }
    }
    result
}

/// Where the byte-at-a-time filter stands.
///
/// The filter agrees byte for byte with the block filter, which reads a
/// control sequence up to its first final byte whatever stands in between.
/// Hence two choices: an `ESC` that follows a held `ESC` releases the first and
/// is itself held (`ESC ESC [ 1 R` leaves only the first `ESC`); and once a
/// sequence is known not to be a report, the rest of it up to its final byte
/// passes straight through in `InForeignSequence`, holding nothing, so that an
/// `ESC [` inside it starts no new report (`ESC [ ? ESC [ 1 R` is kept whole).
/// Held bytes are non-empty exactly in `SawEscape`, `SawCsiIntroducer` and
/// `InNumericBody`.
#[derive(Clone, Copy, Debug, PartialEq, Eq, Structural)]
pub enum FilterPhase {
    /// Outside any control sequence.
    Idle,
    /// An `ESC` has been held back.
    SawEscape,
    /// `ESC [` has been held back.
    SawCsiIntroducer,
    /// `ESC [` and one or more digits or `;` have been held back.
    InNumericBody,
    /// Inside a control sequence already known not to be a report: its bytes
    /// pass through as they come, up to and including its final byte.
    InForeignSequence,
}

/// The bytes that each phase holds back.
pub open spec fn phase_holds(phase: FilterPhase, held: Seq<u8>) -> bool {
    match phase {
        FilterPhase::Idle => held.len() == 0,
        FilterPhase::SawEscape => held == seq![ESC],
        FilterPhase::SawCsiIntroducer => held == seq![ESC, CSI_OPEN],
        FilterPhase::InNumericBody => held.len() >= 3 && starts_csi(held) && all_params(
            held.skip(2),
        ),
        FilterPhase::InForeignSequence => held.len() == 0,
    }
}

/// One byte through the filter: the next phase, the bytes held back after it,
/// and the bytes released by it.
pub open spec fn filter_step(phase: FilterPhase, held: Seq<u8>, b: u8) -> (
    FilterPhase,
    Seq<u8>,
    Seq<u8>,
) {
    match phase {
        FilterPhase::Idle => if b == ESC {
            (FilterPhase::SawEscape, seq![ESC], Seq::empty())
        } else {
            (FilterPhase::Idle, Seq::empty(), seq![b])
        },
        FilterPhase::SawEscape => if b == CSI_OPEN {
            (FilterPhase::SawCsiIntroducer, held.push(b), Seq::empty())
        } else if b == ESC {
            (FilterPhase::SawEscape, seq![ESC], held)
        } else {
            (FilterPhase::Idle, Seq::empty(), held.push(b))
        },
        FilterPhase::SawCsiIntroducer | FilterPhase::InNumericBody => if is_final_byte(b) {
            if b == CPR_FINAL {
                (FilterPhase::Idle, Seq::empty(), Seq::empty())
            } else {
                (FilterPhase::Idle, Seq::empty(), held.push(b))
            }
        } else if is_param_byte(b) {
            (FilterPhase::InNumericBody, held.push(b), Seq::empty())
        } else {
            (FilterPhase::InForeignSequence, Seq::empty(), held.push(b))
        },
        FilterPhase::InForeignSequence => if is_final_byte(b) {
            (FilterPhase::Idle, Seq::empty(), seq![b])
        } else {
            (FilterPhase::InForeignSequence, Seq::empty(), seq![b])
        },
    }
}

/// Bytes fed one by one from a given phase: the last phase, the bytes still
/// held back, and every byte released on the way, in order.
pub open spec fn filter_feed(phase: FilterPhase, held: Seq<u8>, input: Seq<u8>) -> (
    FilterPhase,
    Seq<u8>,
    Seq<u8>,
)
    decreases input.len(),
{
    if input.len() == 0 {
        (phase, held, Seq::empty())
    } else {
        let (p, h, out) = filter_step(phase, held, input[0]);
        let (p2, h2, out2) = filter_feed(p, h, input.skip(1));
        (p2, h2, out + out2)
    }
}

/// What is left to release, with the block filter's rules, from a phase and
/// the input still to come.
pub open spec fn filter_completion(phase: FilterPhase, held: Seq<u8>, rest: Seq<u8>) -> Seq<u8> {
    match phase {
        FilterPhase::Idle => cpr_filtered(rest),
        FilterPhase::InForeignSequence => {
            let k = final_pos(rest) as int;
            if k >= rest.len() {
                rest
            } else {
                rest.take(k + 1) + cpr_filtered(rest.skip(k + 1))
            }
        },
        _ => cpr_filtered(held + rest),
    }
}

/// `final_pos` across a prefix with no final byte.
proof fn lemma_final_pos_concat(a: Seq<u8>, b: Seq<u8>)
    requires
        forall|k: int| 0 <= k < a.len() ==> !is_final_byte(#[trigger] a[k]),
    ensures
        final_pos(a + b) == a.len() + final_pos(b),
{
    let s = a + b;
    lemma_final_pos_bound(b);
    let m = a.len() + final_pos(b) as int;
    assert forall|k: int| 0 <= k < m implies !is_final_byte(#[trigger] s[k]) by {
        if k >= a.len() {
            assert(s[k] == b[k - a.len()]);
        }
    }
    if m < s.len() {
        assert(s[m] == b[final_pos(b) as int]);
    }
    lemma_final_pos_at(s, m);
}

/// A held-back prefix `ESC [` with digits and `;` reads, with the block
/// filter's rules, as a sequence not yet ended.
proof fn lemma_held_unfinished(held: Seq<u8>)
    requires
        held.len() >= 2,
        starts_csi(held),
        all_params(held.skip(2)),
    ensures
        cpr_filtered(held) == held,
{
    let body = held.skip(2);
    assert forall|k: int| 0 <= k < body.len() implies !is_final_byte(#[trigger] body[k]) by {
        assert(is_param_byte(body[k]));
    }
    lemma_final_pos_at(body, body.len() as int);
}

proof fn lemma_step_idle(rest: Seq<u8>)
    requires
        rest.len() > 0,
    ensures
        ({
            let (p, h, out) = filter_step(FilterPhase::Idle, Seq::empty(), rest[0]);
            &&& phase_holds(p, h)
            &&& cpr_filtered(rest) == out + filter_completion(p, h, rest.skip(1))
        }),
{
    let b = rest[0];
    let q = rest.skip(1);
    let (p, h, out) = filter_step(FilterPhase::Idle, Seq::empty(), b);
    if b == ESC {
        assert(h + q =~= rest);
        assert(out + cpr_filtered(rest) =~= cpr_filtered(rest));
    } else {
        assert(!starts_csi(rest));
    }
}

proof fn lemma_step_escape(rest: Seq<u8>)
    requires
        rest.len() > 0,
    ensures
        ({
            let (p, h, out) = filter_step(FilterPhase::SawEscape, seq![ESC], rest[0]);
            &&& phase_holds(p, h)
            &&& cpr_filtered(seq![ESC] + rest) == out + filter_completion(p, h, rest.skip(1))
        }),
{
    let held = seq![ESC];
    let b = rest[0];
    let q = rest.skip(1);
    let (p, h, out) = filter_step(FilterPhase::SawEscape, held, b);
    let s = held + rest;
    assert(s.skip(1) =~= rest);
    assert(s[0] == ESC);
    if b == CSI_OPEN {
        assert(h =~= seq![ESC, CSI_OPEN]);
        assert(h + q =~= s);
        assert(out + cpr_filtered(s) =~= cpr_filtered(s));
    } else if b == ESC {
        assert(!starts_csi(s));
        assert(rest =~= h + q);
        assert(cpr_filtered(s) == seq![ESC] + cpr_filtered(rest));
    } else {
        assert(!starts_csi(s));
        assert(!starts_csi(rest));
        assert(cpr_filtered(s) == seq![ESC] + cpr_filtered(rest));
        assert(cpr_filtered(rest) == seq![b] + cpr_filtered(q));
        assert(out =~= seq![ESC] + seq![b]);
        assert(seq![ESC] + (seq![b] + cpr_filtered(q)) =~= out + cpr_filtered(q));
    }
}

proof fn lemma_step_csi(phase: FilterPhase, held: Seq<u8>, rest: Seq<u8>)
    requires
        phase == FilterPhase::SawCsiIntroducer || phase == FilterPhase::InNumericBody,
        phase_holds(phase, held),
        rest.len() > 0,
    ensures
        ({
            let (p, h, out) = filter_step(phase, held, rest[0]);
            &&& phase_holds(p, h)
            &&& cpr_filtered(held + rest) == out + filter_completion(p, h, rest.skip(1))
        }),
{
    let b = rest[0];
    let q = rest.skip(1);
    let (p, h, out) = filter_step(phase, held, b);
    assert(rest =~= seq![b] + q);
    assert(held.push(b) + q =~= held + rest);
    let s = held + rest;
    assert(held[0] == ESC && held[1] == CSI_OPEN);
    if phase == FilterPhase::SawCsiIntroducer {
        assert(held.skip(2) =~= Seq::<u8>::empty());
    }
    let params = held.skip(2);
    let body = s.skip(2);
    assert(starts_csi(s));
    assert(body =~= params + rest);
    assert forall|k: int| 0 <= k < params.len() implies !is_final_byte(#[trigger] params[k]) by {
        assert(is_param_byte(params[k]));
    }
    if is_final_byte(b) {
        lemma_final_pos_concat(params, rest);
        let m = params.len() as int;
        assert(body[m] == b);
        assert(body.take(m) =~= params);
        assert(s.skip(m + 3) =~= q);
        assert(s.take(m + 3) =~= held.push(b));
        if b == CPR_FINAL {
            assert(out + cpr_filtered(q) =~= cpr_filtered(q));
        }
    } else if is_param_byte(b) {
        assert(h.skip(2) =~= params.push(b));
        assert(h + q =~= s);
        assert(out + cpr_filtered(s) =~= cpr_filtered(s));
    } else {
        let a = params.push(b);
        assert(body =~= a + q);
        assert forall|k: int| 0 <= k < a.len() implies !is_final_byte(#[trigger] a[k]) by {
            if k < params.len() {
                assert(a[k] == params[k]);
            }
        }
        lemma_final_pos_concat(a, q);
        lemma_final_pos_bound(q);
        let kq = final_pos(q) as int;
        let m = a.len() + kq;
        if kq >= q.len() {
            assert(s =~= held.push(b) + q);
        } else {
            assert(body.take(m)[params.len() as int] == b);
            assert(!all_params(body.take(m)));
            assert(s.take(m + 3) =~= held.push(b) + q.take(kq + 1));
            assert(s.skip(m + 3) =~= q.skip(kq + 1));
            assert(held.push(b) + (q.take(kq + 1) + cpr_filtered(q.skip(kq + 1))) =~= s.take(
                m + 3,
            ) + cpr_filtered(s.skip(m + 3)));
        }
    }
}

proof fn lemma_step_foreign(rest: Seq<u8>)
    requires
        rest.len() > 0,
    ensures
        ({
            let (p, h, out) = filter_step(FilterPhase::InForeignSequence, Seq::empty(), rest[0]);
            &&& phase_holds(p, h)
            &&& filter_completion(FilterPhase::InForeignSequence, Seq::empty(), rest) == out
                + filter_completion(p, h, rest.skip(1))
        }),
{
    let b = rest[0];
    let q = rest.skip(1);
    assert(rest =~= seq![b] + q);
    if is_final_byte(b) {
        lemma_final_pos_at(rest, 0);
        assert(rest.take(1) =~= seq![b]);
    } else {
        lemma_final_pos_concat(seq![b], q);
        lemma_final_pos_bound(q);
        let kq = final_pos(q) as int;
        if kq < q.len() {
            assert(rest.take(kq + 2) =~= seq![b] + q.take(kq + 1));
            assert(rest.skip(kq + 2) =~= q.skip(kq + 1));
            assert(seq![b] + (q.take(kq + 1) + cpr_filtered(q.skip(kq + 1))) =~= rest.take(kq + 2)
                + cpr_filtered(rest.skip(kq + 2)));
        } else {
            assert(seq![b] + q =~= rest);
        }
    }
}

/// One step of the filter keeps what remains to be released.
proof fn lemma_step_completion(phase: FilterPhase, held: Seq<u8>, rest: Seq<u8>)
    requires
        phase_holds(phase, held),
        rest.len() > 0,
    ensures
        ({
            let (p, h, out) = filter_step(phase, held, rest[0]);
            &&& phase_holds(p, h)
            &&& filter_completion(phase, held, rest) == out + filter_completion(
                p,
                h,
                rest.skip(1),
            )
        }),
{
    match phase {
        FilterPhase::Idle => {
            assert(held =~= Seq::<u8>::empty());
            lemma_step_idle(rest);
        },
        FilterPhase::SawEscape => {
            lemma_step_escape(rest);
        },
        FilterPhase::InForeignSequence => {
            assert(held =~= Seq::<u8>::empty());
            lemma_step_foreign(rest);
        },
        _ => {
            lemma_step_csi(phase, held, rest);
        },
    }
}

/// Whatever the input, the bytes released by the byte-at-a-time filter,
/// followed by the bytes it still holds back, are what the block filter makes
/// of that input from the same point.
pub proof fn lemma_feed_completion(phase: FilterPhase, held: Seq<u8>, input: Seq<u8>)
    requires
        phase_holds(phase, held),
    ensures
        ({
            let (p, h, out) = filter_feed(phase, held, input);
            &&& phase_holds(p, h)
            &&& out + h == filter_completion(phase, held, input)
        }),
    decreases input.len(),
{
    if input.len() == 0 {
        match phase {
            FilterPhase::Idle => {},
            FilterPhase::InForeignSequence => {},
            FilterPhase::SawEscape => {
                assert(held + input =~= seq![ESC]);
                assert(seq![ESC].skip(1) =~= Seq::<u8>::empty());
                assert(cpr_filtered(seq![ESC]) == seq![ESC] + cpr_filtered(Seq::<u8>::empty()));
                assert(seq![ESC] + Seq::<u8>::empty() =~= seq![ESC]);
            },
            _ => {
                assert(held + input =~= held);
                assert(held[0] == ESC && held[1] == CSI_OPEN);
                if phase == FilterPhase::SawCsiIntroducer {
                    assert(held.skip(2) =~= Seq::<u8>::empty());
                }
                lemma_held_unfinished(held);
            },
        }
        assert(Seq::<u8>::empty() + held =~= held);
        assert(filter_completion(phase, held, input) == held);
    } else {
        let (p, h, out) = filter_step(phase, held, input[0]);
        lemma_step_completion(phase, held, input);
        lemma_feed_completion(p, h, input.skip(1));
        let (p2, h2, out2) = filter_feed(p, h, input.skip(1));
        assert(out + out2 + h2 =~= out + (out2 + h2));
        assert(filter_feed(phase, held, input) == (p2, h2, out + out2));
    }
}

/// Feeding a buffer byte by byte into a fresh filter releases what the block
/// filter returns for it, once the bytes still held back (those of a sequence
/// cut off at the end) are added; where the buffer ends with no sequence cut
/// off, nothing is held back and the two agree exactly.
pub proof fn lemma_incremental_matches_block(input: Seq<u8>)
    ensures
        ({
            let (p, h, out) = filter_feed(FilterPhase::Idle, Seq::empty(), input);
            &&& out + h == cpr_filtered(input)
            &&& h.len() == 0 ==> out == cpr_filtered(input)
        }),
{
    lemma_feed_completion(FilterPhase::Idle, Seq::empty(), input);
    let (p, h, out) = filter_feed(FilterPhase::Idle, Seq::empty(), input);
    if h.len() == 0 {
        assert(out + h =~= out);
    }
}

/// The bytes that a call of [`CprFilter::process`] hands back.
pub open spec fn released(r: Option<Vec<u8>>) -> Seq<u8> {
    match r {
        Some(v) => v@,
        None => Seq::empty(),
    }
}

/// The byte-at-a-time filter: it holds back the start of what may be a Cursor
/// Position Report, drops the report once it is complete, and hands back
/// every held byte in full as soon as the input shows that no report is there.
pub struct CprFilter {
    phase: FilterPhase,
    held: Vec<u8>,
}

impl View for CprFilter {
    type V = (FilterPhase, Seq<u8>);

    closed spec fn view(&self) -> (FilterPhase, Seq<u8>) {
        (self.phase, self.held@)
    }
}

impl CprFilter {
    /// The held bytes are those that the phase stands for.
    pub open spec fn wf(&self) -> bool {
        phase_holds(self@.0, self@.1)
    }

    /// A filter outside any control sequence, holding nothing.
    pub fn new() -> (r: CprFilter)
        ensures
            r@ == (FilterPhase::Idle, Seq::<u8>::empty()),
            r.wf(),
    {
        CprFilter { phase: FilterPhase::Idle, held: Vec::new() }
    }

    /// The current phase.
    pub fn phase(&self) -> (r: FilterPhase)
        ensures
            r == self@.0,
    {
        self.phase
    }

    /// Takes one byte. Returns `None` while the byte is held back as part of a
    /// possible report, or when it completes a report (which is then dropped
    /// whole); returns the bytes to pass on otherwise: the byte itself outside
    /// any sequence, or every held byte followed by it once no report can
    /// follow.
    pub fn process(&mut self, byte: u8) -> (r: Option<Vec<u8>>)
        requires
            old(self).wf(),
        ensures
            final(self).wf(),
            ({
                let (p, h, out) = filter_step(old(self)@.0, old(self)@.1, byte);
                &&& final(self)@ == (p, h)
                &&& released(r) == out
            }),
            r is Some ==> released(r).len() > 0,
    {
        match self.phase {
            FilterPhase::Idle => {
                if byte == ESC {
                    self.phase = FilterPhase::SawEscape;
                    self.held = vec![ESC];
                    assert(self.held@ =~= seq![ESC]);
                    None
                } else {
                    let out = vec![byte];
                    assert(out@ =~= seq![byte]);
                    Some(out)
                }
            },
            FilterPhase::SawEscape => {
                if byte == CSI_OPEN {
                    self.phase = FilterPhase::SawCsiIntroducer;
                    self.held.push(byte);
                    assert(self.held@ =~= seq![ESC, CSI_OPEN]);
                    None
                } else if byte == ESC {
                    let out = vec![ESC];
                    assert(out@ =~= seq![ESC]);
                    Some(out)
                } else {
                    self.phase = FilterPhase::Idle;
                    self.held.push(byte);
                    let mut out: Vec<u8> = Vec::new();
                    std::mem::swap(&mut out, &mut self.held);
                    Some(out)
                }
            },
            FilterPhase::SawCsiIntroducer | FilterPhase::InNumericBody => {
                if final_byte(byte) {
                    self.phase = FilterPhase::Idle;
                    if byte == CPR_FINAL {
                        self.held = Vec::new();
                        None
                    } else {
                        self.held.push(byte);
                        let mut out: Vec<u8> = Vec::new();
                        std::mem::swap(&mut out, &mut self.held);
                        Some(out)
                    }
                } else if param_byte(byte) {
                    self.phase = FilterPhase::InNumericBody;
                    self.held.push(byte);
                    proof {
                        let old_held = old(self)@.1;
                        assert(old_held[0] == ESC && old_held[1] == CSI_OPEN);
                        if old(self)@.0 == FilterPhase::SawCsiIntroducer {
                            assert(old_held.skip(2) =~= Seq::<u8>::empty());
                        }
                        assert(self.held@.skip(2) =~= old_held.skip(2).push(byte));
                    }
                    None
                } else {
                    self.phase = FilterPhase::InForeignSequence;
                    self.held.push(byte);
                    let mut out: Vec<u8> = Vec::new();
                    std::mem::swap(&mut out, &mut self.held);
                    Some(out)
                }
            },
            FilterPhase::InForeignSequence => {
                if final_byte(byte) {
                    self.phase = FilterPhase::Idle;
                }
                let out = vec![byte];
                assert(out@ =~= seq![byte]);
                Some(out)
            },
        }
    }

    /// Ends the input: hands back the bytes still held (the start of a
    /// sequence cut off by the end of the stream) and returns to `Idle`.
    pub fn flush(&mut self) -> (r: Vec<u8>)
        requires
            old(self).wf(),
        ensures
            r@ == old(self)@.1,
            final(self)@ == (FilterPhase::Idle, Seq::<u8>::empty()),
            final(self).wf(),
    {
        self.phase = FilterPhase::Idle;
        let mut out: Vec<u8> = Vec::new();
        std::mem::swap(&mut out, &mut self.held);
        out
    }
}

/// Feeding `a` and then `b` is feeding `a + b`: the filter carries its phase
/// and held bytes from one call to the next.
pub proof fn lemma_feed_split(phase: FilterPhase, held: Seq<u8>, a: Seq<u8>, b: Seq<u8>)
    ensures
        filter_feed(phase, held, a + b) == ({
            let (p1, h1, o1) = filter_feed(phase, held, a);
            let (p2, h2, o2) = filter_feed(p1, h1, b);
            (p2, h2, o1 + o2)
        }),
    decreases a.len(),
{
    if a.len() == 0 {
        assert(a + b =~= b);
        let (p2, h2, o2) = filter_feed(phase, held, b);
        assert(Seq::<u8>::empty() + o2 =~= o2);
    } else {
        let (p, h, out) = filter_step(phase, held, a[0]);
        assert((a + b)[0] == a[0]);
        assert((a + b).skip(1) =~= a.skip(1) + b);
        lemma_feed_split(p, h, a.skip(1), b);
        let (p1, h1, o1) = filter_feed(p, h, a.skip(1));
        let (p2, h2, o2) = filter_feed(p1, h1, b);
        assert(out + (o1 + o2) =~= (out + o1) + o2);
    }
}

/// From `ESC [` and digits or `;`, the rest of a report releases nothing and
/// leaves the filter idle.
proof fn lemma_report_tail(phase: FilterPhase, held: Seq<u8>, q: Seq<u8>)
    requires
        phase == FilterPhase::SawCsiIntroducer || phase == FilterPhase::InNumericBody,
        all_params(q),
    ensures
        filter_feed(phase, held, q.push(CPR_FINAL)) == (
            FilterPhase::Idle,
            Seq::<u8>::empty(),
            Seq::<u8>::empty(),
        ),
    decreases q.len(),
{
    let t = q.push(CPR_FINAL);
    if q.len() == 0 {
        assert(t.skip(1) =~= Seq::<u8>::empty());
        assert(filter_feed(FilterPhase::Idle, Seq::<u8>::empty(), t.skip(1)) == (
            FilterPhase::Idle,
            Seq::<u8>::empty(),
            Seq::<u8>::empty(),
        ));
        assert(Seq::<u8>::empty() + Seq::<u8>::empty() =~= Seq::<u8>::empty());
    } else {
        assert(t[0] == q[0]);
        assert(is_param_byte(q[0]));
        let q2 = q.skip(1);
        assert(t.skip(1) =~= q2.push(CPR_FINAL));
        assert forall|k: int| 0 <= k < q2.len() implies is_param_byte(#[trigger] q2[k]) by {
            assert(q2[k] == q[k + 1]);
        }
        lemma_report_tail(FilterPhase::InNumericBody, held.push(q[0]), q2);
        assert(Seq::<u8>::empty() + Seq::<u8>::empty() =~= Seq::<u8>::empty());
    }
}

/// A whole report fed into an idle filter releases nothing and leaves it idle.
pub proof fn lemma_report_vanishes(s: Seq<u8>)
    requires
        is_cpr(s),
    ensures
        filter_feed(FilterPhase::Idle, Seq::empty(), s) == (
            FilterPhase::Idle,
            Seq::<u8>::empty(),
            Seq::<u8>::empty(),
        ),
{
    let q = s.subrange(2, s.len() - 1);
    assert(s.skip(1).skip(1) =~= q.push(CPR_FINAL));
    lemma_report_tail(FilterPhase::SawCsiIntroducer, seq![ESC, CSI_OPEN], q);
    let s1 = s.skip(1);
    assert(s1[0] == CSI_OPEN);
    assert(seq![ESC].push(CSI_OPEN) =~= seq![ESC, CSI_OPEN]);
    assert(filter_feed(FilterPhase::SawEscape, seq![ESC], s1) == (
        FilterPhase::Idle,
        Seq::<u8>::empty(),
        Seq::<u8>::empty(),
    )) by {
        assert(Seq::<u8>::empty() + Seq::<u8>::empty() =~= Seq::<u8>::empty());
    }
    assert(Seq::<u8>::empty() + Seq::<u8>::empty() =~= Seq::<u8>::empty());
}

/// A report cut in two and fed in two calls, with nothing between them,
/// releases nothing and leaves the filter idle, exactly as the report fed in
/// one call does.
pub proof fn lemma_split_report(a: Seq<u8>, b: Seq<u8>)
    requires
        is_cpr(a + b),
    ensures
        ({
            let (p1, h1, o1) = filter_feed(FilterPhase::Idle, Seq::empty(), a);
            let (p2, h2, o2) = filter_feed(p1, h1, b);
            &&& (p2, h2, o1 + o2) == filter_feed(FilterPhase::Idle, Seq::empty(), a + b)
            &&& p2 == FilterPhase::Idle
            &&& h2.len() == 0
            &&& o1.len() == 0
            &&& o2.len() == 0
        }),
{
    lemma_feed_split(FilterPhase::Idle, Seq::empty(), a, b);
    lemma_report_vanishes(a + b);
}

/// No `ESC` of `s` is followed, within `s`, by `[`: nothing in it opens a
/// control sequence (a lone `ESC` may stand anywhere, also last).
pub open spec fn opens_no_sequence(s: Seq<u8>) -> bool {
    forall|k: int| 0 <= k < s.len() - 1 && #[trigger] s[k] == ESC ==> s[k + 1] != CSI_OPEN
}

/// `s` ends with an `ESC` byte.
pub open spec fn ends_with_escape(s: Seq<u8>) -> bool {
    s.len() > 0 && s.last() == ESC
}

/// The parts joined in order, with every part that is a report left out.
pub open spec fn join_without_reports(parts: Seq<Seq<u8>>) -> Seq<u8>
    decreases parts.len(),
{
    if parts.len() == 0 {
        Seq::empty()
    } else {
        (if is_cpr(parts[0]) {
            Seq::empty()
        } else {
            parts[0]
        }) + join_without_reports(parts.drop_first())
    }
}

/// Text that opens no control sequence passes through unchanged in front of
/// anything that does not start with `[` right after a final `ESC` of the text.
pub proof fn lemma_filtered_text(t: Seq<u8>, rest: Seq<u8>)
    requires
        opens_no_sequence(t),
        ends_with_escape(t) && rest.len() > 0 ==> rest[0] != CSI_OPEN,
    ensures
        cpr_filtered(t + rest) == t + cpr_filtered(rest),
    decreases t.len(),
{
    if t.len() == 0 {
        assert(t + rest =~= rest);
        assert(t + cpr_filtered(rest) =~= cpr_filtered(rest));
    } else {
        let x = t + rest;
        let t2 = t.skip(1);
        assert(x[0] == t[0]);
        if t[0] == ESC && x.len() >= 2 {
            if t.len() >= 2 {
                assert(x[1] == t[1]);
            } else {
                assert(x[1] == rest[0]);
            }
        }
        assert(!starts_csi(x));
        assert(x.skip(1) =~= t2 + rest);
        assert forall|k: int| 0 <= k < t2.len() - 1 && #[trigger] t2[k] == ESC implies t2[k + 1]
            != CSI_OPEN by {
            assert(t2[k] == t[k + 1] && t2[k + 1] == t[k + 2]);
        }
        if t2.len() > 0 {
            assert(t2.last() == t.last());
        }
        lemma_filtered_text(t2, rest);
        assert(seq![t[0]] + (t2 + cpr_filtered(rest)) =~= t + cpr_filtered(rest));
    }
}

/// A buffer with no `ESC` byte passes through unchanged.
pub proof fn lemma_no_escape_unchanged(s: Seq<u8>)
    requires
        forall|k: int| 0 <= k < s.len() ==> #[trigger] s[k] != ESC,
    ensures
        cpr_filtered(s) == s,
{
    lemma_filtered_text(s, Seq::empty());
    assert(s + Seq::<u8>::empty() =~= s);
    assert(s + cpr_filtered(Seq::<u8>::empty()) =~= s);
}

/// The filter never lengthens a buffer.
pub proof fn lemma_filtered_not_longer(s: Seq<u8>)
    ensures
        cpr_filtered(s).len() <= s.len(),
    decreases s.len(),
{
    if s.len() > 0 {
        if starts_csi(s) {
            let body = s.skip(2);
            lemma_final_pos_bound(body);
            let k = final_pos(body) as int;
            if k < body.len() {
                lemma_filtered_not_longer(s.skip(k + 3));
            }
        } else {
            lemma_filtered_not_longer(s.skip(1));
        }
    }
}

/// A complete control sequence in front of anything is dropped whole when it
/// is a report and kept whole otherwise.
pub proof fn lemma_filtered_sequence(s: Seq<u8>, rest: Seq<u8>)
    requires
        is_csi(s),
    ensures
        cpr_filtered(s + rest) == if is_cpr(s) {
            cpr_filtered(rest)
        } else {
            s + cpr_filtered(rest)
        },
{
    let x = s + rest;
    let body = x.skip(2);
    let m = s.len() - 3;
    assert(x[0] == ESC && x[1] == CSI_OPEN);
    assert forall|k: int| 0 <= k < m implies !is_final_byte(#[trigger] body[k]) by {
        assert(body[k] == s[k + 2]);
    }
    assert(body[m] == s.last());
    lemma_final_pos_at(body, m);
    assert(body.take(m) =~= s.subrange(2, s.len() - 1));
    assert(x.skip(m + 3) =~= rest);
    assert(x.take(m + 3) =~= s);
}

/// A control sequence that opens like a report but is not one (its final byte
/// is not `R`, or a byte before it is neither a digit nor `;`) passes through
/// unchanged and in full, and what follows it is filtered as it would be alone.
pub proof fn lemma_foreign_sequence_kept(s: Seq<u8>, rest: Seq<u8>)
    requires
        is_csi(s),
        !is_cpr(s),
    ensures
        cpr_filtered(s + rest) == s + cpr_filtered(rest),
        cpr_filtered(s) == s,
{
    lemma_filtered_sequence(s, rest);
    lemma_filtered_sequence(s, Seq::empty());
    assert(s + Seq::<u8>::empty() =~= s);
    assert(s + cpr_filtered(Seq::<u8>::empty()) =~= s);
}

/// A buffer made of reports, of other complete control sequences and of text
/// that opens no control sequence loses exactly its reports: every other part
/// is kept, byte for byte and in order. A text part may end with `ESC` only
/// where a control sequence, or the end of the buffer, follows it.
pub proof fn lemma_removes_exactly_reports(parts: Seq<Seq<u8>>)
    requires
        forall|i: int|
            0 <= i < parts.len() ==> is_csi(#[trigger] parts[i]) || (opens_no_sequence(parts[i])
                && (ends_with_escape(parts[i]) && i + 1 < parts.len() ==> is_csi(parts[i + 1]))),
    ensures
        cpr_filtered(parts.flatten()) == join_without_reports(parts),
    decreases parts.len(),
{
    if parts.len() == 0 {
    } else {
        let first = parts[0];
        let others = parts.drop_first();
        assert forall|i: int| 0 <= i < others.len() implies is_csi(#[trigger] others[i]) || (
        opens_no_sequence(others[i]) && (ends_with_escape(others[i]) && i + 1 < others.len()
            ==> is_csi(others[i + 1]))) by {
            assert(others[i] == parts[i + 1]);
            if i + 1 < others.len() {
                assert(others[i + 1] == parts[i + 2]);
            }
        }
        lemma_removes_exactly_reports(others);
        if is_csi(first) {
            lemma_filtered_sequence(first, others.flatten());
            if is_cpr(first) {
                assert(Seq::<u8>::empty() + join_without_reports(others) =~= join_without_reports(
                    others,
                ));
            }
        } else {
            if ends_with_escape(first) && others.flatten().len() > 0 {
                assert(is_csi(others[0]));
                assert(others.flatten() == others[0] + others.drop_first().flatten());
                assert(others.flatten()[0] == others[0][0]);
            }
            lemma_filtered_text(first, others.flatten());
            assert(!is_cpr(first)) by {
                if is_cpr(first) {
                    assert(first[0] == ESC);
                }
            }
        }
    }
}

/// `t` opens with a whole report.
pub open spec fn leads_with_report(t: Seq<u8>) -> bool {
    &&& starts_csi(t)
    &&& final_pos(t.skip(2)) < t.skip(2).len()
    &&& t.skip(2)[final_pos(t.skip(2)) as int] == CPR_FINAL
    &&& all_params(t.skip(2).take(final_pos(t.skip(2)) as int))
}

/// Read as the filter reads `s` (after an `ESC` byte when `after_escape`):
/// no report that the filter removes stands directly after an `ESC` byte.
pub open spec fn no_removed_report_after_escape(s: Seq<u8>, after_escape: bool) -> bool
    decreases s.len(),
{
    if s.len() == 0 {
        true
    } else if starts_csi(s) {
        let body = s.skip(2);
        let k = final_pos(body) as int;
        if k >= body.len() {
            true
        } else if body[k] == CPR_FINAL && all_params(body.take(k)) {
            !after_escape && no_removed_report_after_escape(s.skip(k + 3), false)
        } else {
            no_removed_report_after_escape(s.skip(k + 3), false)
        }
    } else {
        no_removed_report_after_escape(s.skip(1), s[0] == ESC)
    }
}

/// The filter keeps the first byte of a buffer that does not open with a report.
proof fn lemma_filtered_head(t: Seq<u8>)
    requires
        t.len() > 0,
        !leads_with_report(t),
    ensures
        cpr_filtered(t).len() > 0,
        cpr_filtered(t)[0] == t[0],
{
    if starts_csi(t) {
        let body = t.skip(2);
        lemma_final_pos_bound(body);
        let k = final_pos(body) as int;
        if k < body.len() {
            assert(t.take(k + 3)[0] == t[0]);
        }
    }
}

/// Filtering a filtered buffer changes nothing, for every buffer in which
/// no report that the filter removes stands directly after an `ESC` byte.
/// (Where one does, removing the report can bring that `ESC` next to a
/// following `[` and make a new report: `ESC`, `ESC [ 1 R`, `[ 5 R` filters to
/// `ESC [ 5 R`.)
pub proof fn lemma_filter_idempotent(s: Seq<u8>)
    requires
        no_removed_report_after_escape(s, false),
    ensures
        cpr_filtered(cpr_filtered(s)) == cpr_filtered(s),
{
    lemma_filter_idempotent_from(s, false);
}

proof fn lemma_filter_idempotent_from(s: Seq<u8>, after_escape: bool)
    requires
        no_removed_report_after_escape(s, after_escape),
    ensures
        cpr_filtered(cpr_filtered(s)) == cpr_filtered(s),
    decreases s.len(),
{
    if s.len() == 0 {
    } else if starts_csi(s) {
        let body = s.skip(2);
        lemma_final_pos_bound(body);
        let k = final_pos(body) as int;
        if k >= body.len() {
        } else {
            let rest = s.skip(k + 3);
            lemma_filter_idempotent_from(rest, false);
            if body[k] == CPR_FINAL && all_params(body.take(k)) {
            } else {
                let seqn = s.take(k + 3);
                assert forall|i: int| 2 <= i < seqn.len() - 1 implies !is_final_byte(
                    #[trigger] seqn[i],
                ) by {
                    assert(seqn[i] == body[i - 2]);
                }
                assert(seqn.last() == body[k]);
                assert(seqn.subrange(2, seqn.len() - 1) =~= body.take(k));
                lemma_foreign_sequence_kept(seqn, cpr_filtered(rest));
            }
        }
    } else {
        let rest = s.skip(1);
        lemma_filter_idempotent_from(rest, s[0] == ESC);
        let f = cpr_filtered(rest);
        if s[0] != ESC {
            lemma_filtered_text(seq![s[0]], f);
        } else {
            if rest.len() > 0 {
                assert(no_removed_report_after_escape(rest, true));
                if leads_with_report(rest) {
                    assert(starts_csi(rest));
                    assert(!no_removed_report_after_escape(rest, true));
                }
                lemma_filtered_head(rest);
                assert(rest[0] == s[1]);
            }
            let x = seq![ESC] + f;
            assert(!starts_csi(x));
            assert(x.skip(1) =~= f);
        }
    }
}

} // verus!
