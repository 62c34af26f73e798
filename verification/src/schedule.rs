//! Finite, owned GPIO edge schedules: a declared waveform expanded into
//! timed edges, and the bank that plays them out.
//!
//! A schedule is a list of segments: single holds (a level for a time) and
//! runs of bits, each bit played as the holds of its `zero` or `one` list.
//! Expansion turns it into `(cycle, level)` edges from a start cycle,
//! flooring each hold's duration to cycles on its own. A hold's duration is
//! a float expression of the device's inputs and clock; it reaches this
//! module already resolved to cycles (or to the reason it has none), so
//! everything here is integer logic. All operands are latched before a
//! schedule replaces the one running under the same name.

use vstd::prelude::*;

verus! {

/// The most edges one schedule may expand to.
pub const MAX_EDGES: usize = 4096;

/// When a schedule's edges become visible.
#[derive(Debug, Clone, Copy, PartialEq, Eq)]
pub enum ScheduleTiming {
    /// At their own cycle.
    Exact,
    /// At the first peripheral tick at or after their cycle.
    PeripheralTickGrid,
}

/// The order a run of bits is played in.
#[derive(Debug, Clone, Copy, PartialEq, Eq)]
pub enum ScheduleBitOrder {
    MsbFirst,
    LsbFirst,
}

/// Why a hold's declared duration is malformed.
#[derive(Debug, Clone, Copy, PartialEq, Eq)]
pub enum HoldFault {
    /// A fixed duration that is not finite or is negative.
    Duration,
    /// An input-scaled duration with no input, or a scale that is not
    /// finite or is negative.
    InputDuration,
}

/// Why a hold's duration has no cycle count for this request.
#[derive(Debug, Clone, PartialEq, Eq)]
pub enum DurationError {
    /// The input the duration scales is not there.
    MissingInput(String),
    /// The duration is not finite or is negative.
    Invalid,
    /// The duration is too long to count in cycles.
    Overflow,
}

/// A hold's duration for one request: its cycle count, or why it has none.
#[derive(Debug, Clone, PartialEq, Eq)]
pub enum HoldCycles {
    Cycles(u64),
    Fails(DurationError),
}

/// A hold: a level, whether its declaration is well formed, and its
/// duration resolved to cycles for this request.
#[derive(Debug, Clone, PartialEq, Eq)]
pub struct ScheduleHold {
    pub level: bool,
    pub fault: Option<HoldFault>,
    pub cycles: HoldCycles,
}

/// A run of `count` bits of a latched value, each played as the holds of
/// `zero` or of `one`.
#[derive(Debug, Clone, PartialEq, Eq)]
pub struct ScheduleBits {
    pub count: u8,
    pub order: ScheduleBitOrder,
    pub zero: Vec<ScheduleHold>,
    pub one: Vec<ScheduleHold>,
}

#[derive(Debug, Clone, PartialEq, Eq)]
pub enum ScheduleSegment {
    Hold(ScheduleHold),
    Bits(ScheduleBits),
}

/// A declared schedule: the output it drives, its level before and after,
/// its timing policy and its segments.
#[derive(Debug, Clone, PartialEq, Eq)]
pub struct GpioScheduleSpec {
    pub output: String,
    pub idle: bool,
    pub final_level: bool,
    pub timing: ScheduleTiming,
    pub segments: Vec<ScheduleSegment>,
}

/// Why a schedule does not expand.
#[derive(Debug, Clone, PartialEq, Eq)]
pub enum ScheduleError {
    /// The edge count overflowed while it was being summed.
    TooLarge,
    /// A run of bits of no bits or of more than 64.
    BitCount,
    /// A run of bits with an empty `zero` or `one` list.
    EmptyBitHolds,
    /// More than 4096 edges.
    TooManyEdges,
    /// A hold whose declared duration is malformed.
    Hold(HoldFault),
    /// A run of bits with no latched value left for it.
    MissingBits,
    /// An edge's cycle does not fit in 64 bits.
    DeadlineOverflow,
    /// A hold's duration has no cycle count.
    Duration(DurationError),
}

/// The first fault among `hs` from `i` on.
pub open spec fn first_fault(hs: Seq<ScheduleHold>, i: nat) -> Option<HoldFault>
    decreases hs.len() - i,
{
    if i >= hs.len() {
        None
    } else if hs[i as int].fault is Some {
        hs[i as int].fault
    } else {
        first_fault(hs, i + 1)
    }
}

pub open spec fn longer(a: nat, b: nat) -> nat {
    if a >= b {
        a
    } else {
        b
    }
}

/// The edge count after a segment, on top of `count`: one for a hold, the
/// bit count times the longer hold list for a run of bits.
pub open spec fn segment_edges(seg: ScheduleSegment) -> nat {
    match seg {
        ScheduleSegment::Hold(_) => 1,
        ScheduleSegment::Bits(b) => b.count as nat * longer(b.zero@.len(), b.one@.len()),
    }
}

/// The refusal of a segment on its own, before its edges are counted.
pub open spec fn segment_shape(seg: ScheduleSegment) -> Option<ScheduleError> {
    match seg {
        ScheduleSegment::Hold(_) => None,
        ScheduleSegment::Bits(b) => if !(1 <= b.count <= 64) {
            Some(ScheduleError::BitCount)
        } else if b.zero@.len() == 0 || b.one@.len() == 0 {
            Some(ScheduleError::EmptyBitHolds)
        } else {
            None
        },
    }
}

/// The first malformed hold of a segment: the `zero` list before the `one`
/// list.
pub open spec fn segment_fault(seg: ScheduleSegment) -> Option<HoldFault> {
    match seg {
        ScheduleSegment::Hold(h) => h.fault,
        ScheduleSegment::Bits(b) => match first_fault(b.zero@, 0) {
            Some(f) => Some(f),
            None => first_fault(b.one@, 0),
        },
    }
}

/// Validation from segment `i` on, `count` edges counted before it: segment
/// by segment, its shape, then the edge count (which may not overflow, and
/// may not pass 4096), then its holds.
pub open spec fn validate_from(segs: Seq<ScheduleSegment>, i: nat, count: nat) -> Result<(), ScheduleError>
    decreases segs.len() - i,
{
    if i >= segs.len() {
        Ok(())
    } else {
        let seg = segs[i as int];
        match segment_shape(seg) {
            Some(e) => Err(e),
            None => {
                let c = count + segment_edges(seg);
                if c > usize::MAX {
                    Err(ScheduleError::TooLarge)
                } else if c > MAX_EDGES {
                    Err(ScheduleError::TooManyEdges)
                } else {
                    match segment_fault(seg) {
                        Some(f) => Err(ScheduleError::Hold(f)),
                        None => validate_from(segs, i + 1, c),
                    }
                }
            },
        }
    }
}

/// A schedule's validation: its maximum expansion, start and final edge
/// included, checked before any request can allocate its edges.
pub open spec fn validation(spec: GpioScheduleSpec) -> Result<(), ScheduleError> {
    validate_from(spec.segments@, 0, 2)
}

/// Whether a hold list holds a malformed hold.
fn first_fault_exec(hs: &Vec<ScheduleHold>) -> (r: Option<HoldFault>)
    ensures
        r == first_fault(hs@, 0),
{
    let mut i: usize = 0;
    while i < hs.len()
        invariant
            i <= hs.len(),
            first_fault(hs@, 0) == first_fault(hs@, i as nat),
        decreases hs.len() - i,
    {
        if hs[i].fault.is_some() {
            return hs[i].fault;
        }
        i = i + 1;
    }
    None
}

/// Checks a schedule's maximum expansion before any request can allocate
/// its edges; see `validation`.
pub fn validate(spec: &GpioScheduleSpec) -> (r: Result<(), ScheduleError>)
    ensures
        r == validation(*spec),
{
    let segs = &spec.segments;
    let mut count: usize = 2;
    let mut i: usize = 0;
    while i < segs.len()
        invariant
            i <= segs.len(),
            count <= MAX_EDGES,
            validation(*spec) == validate_from(segs@, i as nat, count as nat),
            segs@ == spec.segments@,
        decreases segs.len() - i,
    {
        let seg = &segs[i];
        let added: u128 = match seg {
            ScheduleSegment::Hold(_) => 1,
            ScheduleSegment::Bits(b) => {
                if !(1 <= b.count && b.count <= 64) {
                    return Err(ScheduleError::BitCount);
                }
                if b.zero.len() == 0 || b.one.len() == 0 {
                    return Err(ScheduleError::EmptyBitHolds);
                }
                let most = if b.zero.len() >= b.one.len() {
                    b.zero.len()
                } else {
                    b.one.len()
                };
                assert((b.count as u128) * (most as u128) <= 64 * (most as u128)) by (nonlinear_arith)
                    requires
                        b.count <= 64,
                ;
                b.count as u128 * most as u128
            },
        };
        let total = count as u128 + added;
        if total > usize::MAX as u128 {
            return Err(ScheduleError::TooLarge);
        }
        if total > MAX_EDGES as u128 {
            return Err(ScheduleError::TooManyEdges);
        }
        let fault = match seg {
            ScheduleSegment::Hold(h) => h.fault,
            ScheduleSegment::Bits(b) => match first_fault_exec(&b.zero) {
                Some(f) => Some(f),
                None => first_fault_exec(&b.one),
            },
        };
        if let Some(f) = fault {
            return Err(ScheduleError::Hold(f));
        }
        count = total as usize;
        i = i + 1;
    }
    Ok(())
}

// ─── expansion ─────────────────────────────────────────────────────────────

/// Where an expansion is: the cycle the next hold starts at, the level
/// being driven, and the edges so far.
pub struct Walk {
    pub at: u64,
    pub level: bool,
    pub edges: Seq<(u64, bool)>,
}

/// Plays one hold: an edge when its level differs from the one driven, then
/// its duration.
pub open spec fn play(h: ScheduleHold, w: Walk) -> Result<Walk, ScheduleError> {
    let edges = if h.level != w.level {
        w.edges.push((w.at, h.level))
    } else {
        w.edges
    };
    match h.cycles {
        HoldCycles::Fails(e) => Err(ScheduleError::Duration(e)),
        HoldCycles::Cycles(c) => if w.at + c > u64::MAX {
            Err(ScheduleError::DeadlineOverflow)
        } else {
            Ok(Walk { at: (w.at + c) as u64, level: h.level, edges })
        },
    }
}

/// Plays the holds `hs` from `i` on.
pub open spec fn play_all(hs: Seq<ScheduleHold>, i: nat, w: Walk) -> Result<Walk, ScheduleError>
    decreases hs.len() - i,
{
    if i >= hs.len() {
        Ok(w)
    } else {
        match play(hs[i as int], w) {
            Err(e) => Err(e),
            Ok(w2) => play_all(hs, i + 1, w2),
        }
    }
}

/// Whether bit number `index` of a run of `count` bits of `value` is set,
/// counting in the run's order.
pub open spec fn bit_set(value: u64, count: u8, order: ScheduleBitOrder, index: u8) -> bool {
    let shift: u8 = match order {
        ScheduleBitOrder::MsbFirst => (count - 1 - index) as u8,
        ScheduleBitOrder::LsbFirst => index,
    };
    (value >> shift) & 1 != 0
}

/// Plays the bits of a run from `index` on.
pub open spec fn play_bits(b: ScheduleBits, value: u64, index: u8, w: Walk) -> Result<Walk, ScheduleError>
    decreases b.count - index,
{
    if index >= b.count {
        Ok(w)
    } else {
        let hs = if bit_set(value, b.count, b.order, index) {
            b.one@
        } else {
            b.zero@
        };
        match play_all(hs, 0, w) {
            Err(e) => Err(e),
            Ok(w2) => play_bits(b, value, (index + 1) as u8, w2),
        }
    }
}

/// Plays the segments from `i` on, the runs of bits taking the latched
/// values from `vi` on.
pub open spec fn play_segments(
    segs: Seq<ScheduleSegment>,
    i: nat,
    values: Seq<i64>,
    vi: nat,
    w: Walk,
) -> Result<Walk, ScheduleError>
    decreases segs.len() - i,
{
    if i >= segs.len() {
        Ok(w)
    } else {
        match segs[i as int] {
            ScheduleSegment::Hold(h) => match play(h, w) {
                Err(e) => Err(e),
                Ok(w2) => play_segments(segs, i + 1, values, vi, w2),
            },
            ScheduleSegment::Bits(b) => if vi >= values.len() {
                Err(ScheduleError::MissingBits)
            } else {
                match play_bits(b, values[vi as int] as u64, 0, w) {
                    Err(e) => Err(e),
                    Ok(w2) => play_segments(segs, i + 1, values, vi + 1, w2),
                }
            },
        }
    }
}

/// The edges a schedule expands to from cycle `now`: validated first, then
/// played from the idle level, then an edge to the final level if the last
/// hold left another. Each hold's duration is floored to cycles on its own.
pub open spec fn expansion(spec: GpioScheduleSpec, values: Seq<i64>, now: u64) -> Result<
    Seq<(u64, bool)>,
    ScheduleError,
> {
    match validation(spec) {
        Err(e) => Err(e),
        Ok(()) => match play_segments(
            spec.segments@,
            0,
            values,
            0,
            Walk { at: now, level: spec.idle, edges: Seq::empty() },
        ) {
            Err(e) => Err(e),
            Ok(w) => Ok(
                if w.level != spec.final_level {
                    w.edges.push((w.at, spec.final_level))
                } else {
                    w.edges
                },
            ),
        },
    }
}

/// A schedule that validates has every segment well shaped.
proof fn lemma_valid_shapes(segs: Seq<ScheduleSegment>, i: nat, count: nat)
    requires
        validate_from(segs, i, count) is Ok,
    ensures
        forall|j: int| i <= j < segs.len() ==> #[trigger] segment_shape(segs[j]) is None,
    decreases segs.len() - i,
{
    if i < segs.len() {
        lemma_valid_shapes(segs, i + 1, count + segment_edges(segs[i as int]));
    }
}

struct WalkExec {
    at: u64,
    level: bool,
    edges: Vec<(u64, bool)>,
}

impl View for WalkExec {
    type V = Walk;

    closed spec fn view(&self) -> Walk {
        Walk { at: self.at, level: self.level, edges: self.edges@ }
    }
}

fn copy_duration_error(e: &DurationError) -> (r: DurationError)
    ensures
        r == *e,
{
    match e {
        DurationError::MissingInput(n) => DurationError::MissingInput(n.clone()),
        DurationError::Invalid => DurationError::Invalid,
        DurationError::Overflow => DurationError::Overflow,
    }
}

fn play_exec(h: &ScheduleHold, w: &mut WalkExec) -> (r: Result<(), ScheduleError>)
    ensures
        match r {
            Ok(()) => play(*h, old(w)@) == Ok::<Walk, ScheduleError>(final(w)@),
            Err(e) => play(*h, old(w)@) == Err::<Walk, ScheduleError>(e),
        },
{
    if h.level != w.level {
        w.edges.push((w.at, h.level));
        w.level = h.level;
    }
    match &h.cycles {
        HoldCycles::Fails(e) => Err(ScheduleError::Duration(copy_duration_error(e))),
        HoldCycles::Cycles(c) => match w.at.checked_add(*c) {
            None => Err(ScheduleError::DeadlineOverflow),
            Some(at) => {
                w.at = at;
                Ok(())
            },
        },
    }
}

fn play_list(hs: &Vec<ScheduleHold>, w: &mut WalkExec) -> (r: Result<(), ScheduleError>)
    ensures
        match r {
            Ok(()) => play_all(hs@, 0, old(w)@) == Ok::<Walk, ScheduleError>(final(w)@),
            Err(e) => play_all(hs@, 0, old(w)@) == Err::<Walk, ScheduleError>(e),
        },
{
    let ghost start = w@;
    let mut i: usize = 0;
    while i < hs.len()
        invariant
            i <= hs.len(),
            start == old(w)@,
            play_all(hs@, 0, start) == play_all(hs@, i as nat, w@),
        decreases hs.len() - i,
    {
        match play_exec(&hs[i], w) {
            Err(e) => return Err(e),
            Ok(()) => {},
        }
        i = i + 1;
    }
    Ok(())
}

fn play_run(b: &ScheduleBits, value: u64, w: &mut WalkExec) -> (r: Result<(), ScheduleError>)
    requires
        b.count <= 64,
    ensures
        match r {
            Ok(()) => play_bits(*b, value, 0, old(w)@) == Ok::<Walk, ScheduleError>(final(w)@),
            Err(e) => play_bits(*b, value, 0, old(w)@) == Err::<Walk, ScheduleError>(e),
        },
{
    let ghost start = w@;
    let mut index: u8 = 0;
    while index < b.count
        invariant
            b.count <= 64,
            start == old(w)@,
            play_bits(*b, value, 0, start) == play_bits(*b, value, index, w@),
        decreases b.count - index,
    {
        let shift: u8 = match b.order {
            ScheduleBitOrder::MsbFirst => b.count - 1 - index,
            ScheduleBitOrder::LsbFirst => index,
        };
        let hs = if (value >> shift) & 1 != 0 {
            &b.one
        } else {
            &b.zero
        };
        match play_list(hs, w) {
            Err(e) => return Err(e),
            Ok(()) => {},
        }
        index = index + 1;
    }
    Ok(())
}

/// Expands a schedule into its edges from cycle `now`, the runs of bits
/// reading the latched `values` in order; see `expansion`.
pub fn expand(spec: &GpioScheduleSpec, values: &[i64], now: u64) -> (r: Result<Vec<(u64, bool)>, ScheduleError>)
    ensures
        match r {
            Ok(edges) => expansion(*spec, values@, now) == Ok::<Seq<(u64, bool)>, ScheduleError>(
                edges@,
            ),
            Err(e) => expansion(*spec, values@, now) == Err::<Seq<(u64, bool)>, ScheduleError>(e),
        },
{
    match validate(spec) {
        Err(e) => return Err(e),
        Ok(()) => {},
    }
    proof {
        lemma_valid_shapes(spec.segments@, 0, 2);
    }
    let mut w = WalkExec { at: now, level: spec.idle, edges: Vec::new() };
    let ghost start = w@;
    let segs = &spec.segments;
    let mut i: usize = 0;
    let mut vi: usize = 0;
    while i < segs.len()
        invariant
            i <= segs.len(),
            vi <= values.len(),
            segs@ == spec.segments@,
            validation(*spec) is Ok,
            start == (Walk { at: now, level: spec.idle, edges: Seq::empty() }),
            forall|j: int| 0 <= j < segs@.len() ==> #[trigger] segment_shape(segs@[j]) is None,
            play_segments(segs@, 0, values@, 0, start) == play_segments(
                segs@,
                i as nat,
                values@,
                vi as nat,
                w@,
            ),
        decreases segs.len() - i,
    {
        match &segs[i] {
            ScheduleSegment::Hold(h) => match play_exec(h, &mut w) {
                Err(e) => return Err(e),
                Ok(()) => {},
            },
            ScheduleSegment::Bits(b) => {
                assert(segment_shape(segs@[i as int]) is None);
                if vi >= values.len() {
                    return Err(ScheduleError::MissingBits);
                }
                let value = values[vi] as u64;
                match play_run(b, value, &mut w) {
                    Err(e) => return Err(e),
                    Ok(()) => {},
                }
                vi = vi + 1;
            },
        }
        i = i + 1;
    }
    if w.level != spec.final_level {
        w.edges.push((w.at, spec.final_level));
    }
    Ok(w.edges)
}

// ─── name order ────────────────────────────────────────────────────────────

/// Lexicographic order of character sequences: the order of `String`'s
/// `Ord`, since UTF-8 orders bytes as it orders code points.
pub open spec fn lex_less(a: Seq<char>, b: Seq<char>) -> bool
    decreases a.len(),
{
    if a.len() == 0 {
        b.len() > 0
    } else if b.len() == 0 {
        false
    } else if a[0] != b[0] {
        a[0] < b[0]
    } else {
        lex_less(a.drop_first(), b.drop_first())
    }
}

pub proof fn lemma_lex_irreflexive(a: Seq<char>)
    ensures
        !lex_less(a, a),
    decreases a.len(),
{
    if a.len() > 0 {
        lemma_lex_irreflexive(a.drop_first());
    }
}

pub proof fn lemma_lex_asymmetric(a: Seq<char>, b: Seq<char>)
    ensures
        !(lex_less(a, b) && lex_less(b, a)),
    decreases a.len(),
{
    if a.len() > 0 && b.len() > 0 && a[0] == b[0] {
        lemma_lex_asymmetric(a.drop_first(), b.drop_first());
    }
}

pub proof fn lemma_lex_total(a: Seq<char>, b: Seq<char>)
    ensures
        a == b || lex_less(a, b) || lex_less(b, a),
    decreases a.len(),
{
    if a.len() > 0 && b.len() > 0 && a[0] == b[0] {
        lemma_lex_total(a.drop_first(), b.drop_first());
        if a.drop_first() == b.drop_first() {
            assert(a =~= seq![a[0]] + a.drop_first());
            assert(b =~= seq![b[0]] + b.drop_first());
        }
    } else if a.len() == 0 && b.len() == 0 {
        assert(a =~= b);
    }
}

pub proof fn lemma_lex_transitive(a: Seq<char>, b: Seq<char>, c: Seq<char>)
    requires
        lex_less(a, b),
        lex_less(b, c),
    ensures
        lex_less(a, c),
    decreases a.len(),
{
    if a.len() > 0 && b.len() > 0 && c.len() > 0 && a[0] == b[0] && b[0] == c[0] {
        lemma_lex_transitive(a.drop_first(), b.drop_first(), c.drop_first());
    }
}

/// Whether `a` sorts before `b`.
fn text_less(a: &String, b: &String) -> (r: bool)
    ensures
        r == lex_less(a@, b@),
{
    let x = crate::expr::chars_of(a.as_str());
    let y = crate::expr::chars_of(b.as_str());
    let mut k: usize = 0;
    assert(x@.skip(0) =~= x@);
    assert(y@.skip(0) =~= y@);
    while k < x.len() && k < y.len() && x[k] == y[k]
        invariant
            k <= x.len(),
            k <= y.len(),
            x@ == a@,
            y@ == b@,
            lex_less(a@, b@) == lex_less(x@.skip(k as int), y@.skip(k as int)),
        decreases x.len() - k,
    {
        assert(x@.skip(k as int).drop_first() =~= x@.skip(k + 1));
        assert(y@.skip(k as int).drop_first() =~= y@.skip(k + 1));
        k = k + 1;
    }
    if k >= x.len() {
        k < y.len()
    } else if k >= y.len() {
        false
    } else {
        assert(x@.skip(k as int)[0] == x@[k as int]);
        assert(y@.skip(k as int)[0] == y@[k as int]);
        x[k] < y[k]
    }
}

// ─── the bank ──────────────────────────────────────────────────────────────

/// One running schedule: the output it drives, its timing, its edges, and
/// the generation it was started in.
#[derive(Debug)]
pub struct Active {
    pub output: String,
    pub timing: ScheduleTiming,
    pub edges: Vec<(u64, bool)>,
    pub generation: u64,
}

/// A running schedule and how far it has been played.
pub struct ActiveV {
    pub output: Seq<char>,
    pub timing: ScheduleTiming,
    pub edges: Seq<(u64, bool)>,
    pub cursor: nat,
    pub generation: u64,
}

pub open spec fn active_view(a: Active, cursor: usize) -> ActiveV {
    ActiveV {
        output: a.output@,
        timing: a.timing,
        edges: a.edges@,
        cursor: cursor as nat,
        generation: a.generation,
    }
}

/// The schedules a device runs, one per name, and a revision that counts
/// every start and cancel.
#[derive(Debug)]
pub struct ScheduleBank {
    entries: Vec<(String, Active)>,
    cursors: Vec<usize>,
    revision: u64,
}

pub struct BankV {
    pub active: Seq<(Seq<char>, ActiveV)>,
    pub revision: u64,
}

/// The bank's entries are in strictly increasing name order (so one per
/// name), and no cursor is past its edges.
pub open spec fn bank_wf(b: BankV) -> bool {
    &&& forall|i: int, j: int|
        0 <= i < j < b.active.len() ==> lex_less(#[trigger] b.active[i].0, #[trigger] b.active[j].0)
    &&& forall|i: int| 0 <= i < b.active.len() ==> (#[trigger] b.active[i]).1.cursor <= b.active[i].1.edges.len()
}

impl View for ScheduleBank {
    type V = BankV;

    closed spec fn view(&self) -> BankV {
        BankV {
            active: Seq::new(
                self.entries@.len(),
                |i: int| (self.entries@[i].0@, active_view(self.entries@[i].1, self.cursors@[i])),
            ),
            revision: self.revision,
        }
    }
}

impl ScheduleBank {
    /// The bank is well formed: its entries in strict name order, no cursor
    /// past its edges.
    pub closed spec fn wf(&self) -> bool {
        &&& self.cursors@.len() == self.entries@.len()
        &&& bank_wf(self@)
    }
}

/// `s` with the schedule `a` under `name`: replacing the one of that name,
/// or inserted in name order.
pub open spec fn upsert(s: Seq<(Seq<char>, ActiveV)>, name: Seq<char>, a: ActiveV) -> Seq<
    (Seq<char>, ActiveV),
>
    decreases s.len(),
{
    if s.len() == 0 {
        seq![(name, a)]
    } else if s[0].0 == name {
        seq![(name, a)] + s.drop_first()
    } else if lex_less(name, s[0].0) {
        seq![(name, a)] + s
    } else {
        seq![s[0]] + upsert(s.drop_first(), name, a)
    }
}

proof fn lemma_upsert_wf(s: Seq<(Seq<char>, ActiveV)>, name: Seq<char>, a: ActiveV)
    requires
        bank_wf(BankV { active: s, revision: 0 }),
        a.cursor <= a.edges.len(),
    ensures
        bank_wf(BankV { active: upsert(s, name, a), revision: 0 }),
        forall|k: int|
            0 <= k < upsert(s, name, a).len() ==> (#[trigger] upsert(s, name, a)[k]).0 == name || s.contains(
                upsert(s, name, a)[k],
            ),
    decreases s.len(),
{
    let u = upsert(s, name, a);
    if s.len() == 0 {
    } else if s[0].0 == name {
        assert forall|k: int| 0 < k < u.len() implies lex_less(name, #[trigger] u[k].0) by {
            assert(u[k] == s[k]);
        }
        assert forall|k: int| 0 <= k < u.len() && k > 0 implies s.contains(#[trigger] u[k]) by {
            assert(u[k] == s[k]);
        }
    } else if lex_less(name, s[0].0) {
        assert forall|k: int| 0 < k < u.len() implies lex_less(name, #[trigger] u[k].0) by {
            if k > 1 {
                lemma_lex_transitive(name, s[0].0, s[k - 1].0);
            }
        }
        assert forall|k: int| 0 <= k < u.len() && k > 0 implies s.contains(#[trigger] u[k]) by {
            assert(u[k] == s[k - 1]);
        }
    } else {
        let rest = s.drop_first();
        assert(bank_wf(BankV { active: rest, revision: 0 })) by {
            assert forall|i: int, j: int| 0 <= i < j < rest.len() implies lex_less(
                #[trigger] rest[i].0,
                #[trigger] rest[j].0,
            ) by {
                assert(rest[i] == s[i + 1] && rest[j] == s[j + 1]);
            }
        }
        lemma_upsert_wf(rest, name, a);
        lemma_lex_total(name, s[0].0);
        let ur = upsert(rest, name, a);
        assert(u =~= seq![s[0]] + ur);
        assert forall|k: int| 0 <= k < ur.len() implies lex_less(s[0].0, #[trigger] ur[k].0) by {
            if ur[k].0 == name {
            } else {
                let j = choose|j: int| 0 <= j < rest.len() && rest[j] == ur[k];
                assert(rest[j] == s[j + 1]);
            }
        }
        assert forall|k: int| 0 <= k < u.len() implies (#[trigger] u[k]).0 == name || s.contains(u[k]) by {
            if k > 0 && ur[k - 1].0 != name {
                let j = choose|j: int| 0 <= j < rest.len() && rest[j] == ur[k - 1];
                assert(s[j + 1] == u[k]);
            } else if k == 0 {
                assert(s[0] == u[0]);
            }
        }
        assert forall|i: int| 0 <= i < u.len() implies (#[trigger] u[i]).1.cursor <= u[i].1.edges.len() by {
            if i > 0 {
                assert(u[i] == ur[i - 1]);
            }
        }
    }
}

impl ScheduleBank {
    /// An empty bank at revision 0.
    pub fn new() -> (r: ScheduleBank)
        ensures
            r@.active.len() == 0,
            r@.revision == 0,
            r.wf(),
    {
        let r = ScheduleBank { entries: Vec::new(), cursors: Vec::new(), revision: 0 };
        assert(r@.active =~= Seq::<(Seq<char>, ActiveV)>::empty());
        r
    }

    /// How many starts and cancels the bank has seen, wrapping.
    pub fn revision(&self) -> (r: u64)
        ensures
            r == self@.revision,
    {
        self.revision
    }

    /// Puts `a` under `name` from its first edge, replacing the schedule of
    /// that name.
    fn upsert_exec(&mut self, name: &str, a: Active)
        requires
            old(self).wf(),
        ensures
            final(self).wf(),
            final(self)@.active == upsert(old(self)@.active, name@, active_view(a, 0)),
            final(self)@.revision == old(self)@.revision,
    {
        let ghost s0 = self@.active;
        let ghost av = active_view(a, 0);
        let key = name.to_owned();
        let mut k: usize = 0;
        assert(s0.skip(0) =~= s0);
        assert(s0.subrange(0, 0) + upsert(s0, name@, av) =~= upsert(s0, name@, av));
        while k < self.entries.len() && text_less(&self.entries[k].0, &key)
            invariant
                k <= self.entries.len(),
                self@.active == s0,
                self.cursors@.len() == self.entries@.len(),
                bank_wf(bank_of(s0)),
                key@ == name@,
                upsert(s0, name@, av) == s0.subrange(0, k as int) + upsert(s0.skip(k as int), name@, av),
            decreases self.entries.len() - k,
        {
            let ghost t = s0.skip(k as int);
            assert(s0[k as int].0 == self.entries@[k as int].0@);
            proof {
                lemma_lex_asymmetric(s0[k as int].0, name@);
                lemma_lex_irreflexive(name@);
                assert(t[0] == s0[k as int]);
                assert(t.drop_first() =~= s0.skip(k + 1));
                assert(s0.subrange(0, k as int) + seq![s0[k as int]] =~= s0.subrange(0, k + 1));
                assert(upsert(t, name@, av) == seq![t[0]] + upsert(t.drop_first(), name@, av));
                assert(s0.subrange(0, k as int) + (seq![s0[k as int]] + upsert(s0.skip(k + 1), name@, av))
                    =~= s0.subrange(0, k + 1) + upsert(s0.skip(k + 1), name@, av));
            }
            k = k + 1;
        }
        proof {
            lemma_upsert_wf(s0, name@, av);
        }
        let ghost t = s0.skip(k as int);
        if k < self.entries.len() && self.entries[k].0 == key {
            assert(s0[k as int].0 == self.entries@[k as int].0@);
            assert(t[0] == s0[k as int]);
            assert(t.drop_first() =~= s0.skip(k + 1));
            self.entries.set(k, (key, a));
            self.cursors.set(k, 0);
            assert(self@.active =~= s0.subrange(0, k as int) + (seq![(name@, av)] + s0.skip(k + 1)));
        } else {
            if k < self.entries.len() {
                assert(s0[k as int].0 == self.entries@[k as int].0@);
                proof {
                    lemma_lex_total(name@, s0[k as int].0);
                }
                assert(t[0] == s0[k as int]);
            } else {
                assert(t =~= Seq::<(Seq<char>, ActiveV)>::empty());
            }
            self.entries.insert(k, (key, a));
            self.cursors.insert(k, 0);
            assert(self@.active =~= s0.subrange(0, k as int) + (seq![(name@, av)] + t));
        }
    }
}

/// A bank holding the entries `s`; its revision plays no part in being well
/// formed.
pub open spec fn bank_of(s: Seq<(Seq<char>, ActiveV)>) -> BankV {
    BankV { active: s, revision: 0 }
}

/// The revision after one more start or cancel, wrapping.
pub open spec fn next_revision(r: u64) -> u64 {
    if r == u64::MAX {
        0
    } else {
        (r + 1) as u64
    }
}

/// The first visible cycle of an edge at `at` under `timing`: its own, or
/// the first peripheral tick (every `interval` cycles, at least 1) at or
/// after it; `None` when that tick does not fit in 64 bits.
pub open spec fn visible_at(timing: ScheduleTiming, at: u64, interval: u64) -> Option<u64> {
    match timing {
        ScheduleTiming::Exact => Some(at),
        ScheduleTiming::PeripheralTickGrid => {
            let i: int = if interval == 0 {
                1
            } else {
                interval as int
            };
            let up = at + (i - (at as int) % i) % i;
            if up > u64::MAX {
                None
            } else {
                Some(up as u64)
            }
        },
    }
}

/// The next deadline of one schedule: the visible cycle of its next edge.
pub open spec fn deadline_of(a: ActiveV, interval: u64) -> Option<u64> {
    if a.cursor < a.edges.len() {
        visible_at(a.timing, a.edges[a.cursor as int].0, interval)
    } else {
        None
    }
}

pub open spec fn earlier(a: Option<u64>, b: Option<u64>) -> Option<u64> {
    match (a, b) {
        (None, _) => b,
        (_, None) => a,
        (Some(x), Some(y)) => Some(
            if x <= y {
                x
            } else {
                y
            },
        ),
    }
}

/// The earliest deadline among the schedules from `i` on.
pub open spec fn earliest_from(s: Seq<(Seq<char>, ActiveV)>, i: nat, interval: u64) -> Option<u64>
    decreases s.len() - i,
{
    if i >= s.len() {
        None
    } else {
        earlier(deadline_of(s[i as int].1, interval), earliest_from(s, i + 1, interval))
    }
}

impl ScheduleBank {
    /// Starts the schedule `spec` under `name` at cycle `now`, the runs of
    /// bits reading the latched `values`, replacing whatever ran under that
    /// name. Its edges are its idle level at `now`, then its expansion; the
    /// start counts as a revision and is the schedule's generation. When the
    /// schedule does not expand, nothing changes.
    pub fn emit(&mut self, name: &str, spec: &GpioScheduleSpec, values: &[i64], now: u64) -> (r: Result<
        (),
        ScheduleError,
    >)
        requires
            old(self).wf(),
        ensures
            final(self).wf(),
            match r {
                Ok(()) => {
                    &&& expansion(*spec, values@, now) is Ok
                    &&& final(self)@.revision == next_revision(old(self)@.revision)
                    &&& final(self)@.active == upsert(
                        old(self)@.active,
                        name@,
                        ActiveV {
                            output: spec.output@,
                            timing: spec.timing,
                            edges: seq![(now, spec.idle)] + expansion(*spec, values@, now)->Ok_0,
                            cursor: 0,
                            generation: final(self)@.revision,
                        },
                    )
                },
                Err(e) => expansion(*spec, values@, now) == Err::<Seq<(u64, bool)>, ScheduleError>(e)
                    && final(self)@ == old(self)@,
            },
    {
        let mut edges = match expand(spec, values, now) {
            Err(e) => return Err(e),
            Ok(edges) => edges,
        };
        let ghost expanded = edges@;
        edges.insert(0, (now, spec.idle));
        assert(edges@ =~= seq![(now, spec.idle)] + expanded);
        self.revision = self.revision.wrapping_add(1);
        let a = Active {
            output: spec.output.clone(),
            timing: spec.timing,
            edges,
            generation: self.revision,
        };
        self.upsert_exec(name, a);
        Ok(())
    }

    /// Cancels whatever runs under `name`: from `now` the schedule's output
    /// is held at its idle level, at once. The cancel counts as a revision.
    pub fn cancel(&mut self, name: &str, spec: &GpioScheduleSpec, now: u64)
        requires
            old(self).wf(),
        ensures
            final(self).wf(),
            final(self)@.revision == next_revision(old(self)@.revision),
            final(self)@.active == upsert(
                old(self)@.active,
                name@,
                ActiveV {
                    output: spec.output@,
                    timing: ScheduleTiming::Exact,
                    edges: seq![(now, spec.idle)],
                    cursor: 0,
                    generation: final(self)@.revision,
                },
            ),
    {
        self.revision = self.revision.wrapping_add(1);
        let mut edges: Vec<(u64, bool)> = Vec::new();
        edges.push((now, spec.idle));
        let a = Active {
            output: spec.output.clone(),
            timing: ScheduleTiming::Exact,
            edges,
            generation: self.revision,
        };
        self.upsert_exec(name, a);
    }

    /// The earliest cycle at which a schedule's next edge becomes visible,
    /// with peripheral ticks every `interval` cycles; `None` when nothing is
    /// pending.
    pub fn next_deadline(&self, interval: u64) -> (r: Option<u64>)
        requires
            self.wf(),
        ensures
            r == earliest_from(self@.active, 0, interval),
    {
        let ghost s = self@.active;
        let mut best: Option<u64> = None;
        let mut k: usize = self.entries.len();
        while k > 0
            invariant
                k <= self.entries.len(),
                s == self@.active,
                self.wf(),
                best == earliest_from(s, k as nat, interval),
            decreases k,
        {
            k = k - 1;
            let a = &self.entries[k].1;
            let c = self.cursors[k];
            let d = if c < a.edges.len() {
                let at = a.edges[c].0;
                match a.timing {
                    ScheduleTiming::Exact => Some(at),
                    ScheduleTiming::PeripheralTickGrid => {
                        let i = if interval == 0 {
                            1
                        } else {
                            interval
                        };
                        at.checked_add((i - at % i) % i)
                    },
                }
            } else {
                None
            };
            assert(d == deadline_of(s[k as int].1, interval));
            best = match (d, best) {
                (None, _) => best,
                (_, None) => d,
                (Some(x), Some(y)) => Some(
                    if x <= y {
                        x
                    } else {
                        y
                    },
                ),
            };
        }
        best
    }
}

// ─── servicing ─────────────────────────────────────────────────────────────

/// The last cycle a schedule's edges are visible at when serviced at `now`:
/// `now` itself, or the peripheral tick at or before it.
pub open spec fn service_limit(timing: ScheduleTiming, now: u64, interval: u64) -> u64 {
    match timing {
        ScheduleTiming::Exact => now,
        ScheduleTiming::PeripheralTickGrid => {
            let i: u64 = if interval == 0 {
                1
            } else {
                interval
            };
            ((now / i) * i) as u64
        },
    }
}

/// The first edge from `c` on that lies after `limit`, or the end.
pub open spec fn due_end(edges: Seq<(u64, bool)>, c: nat, limit: u64) -> nat
    decreases edges.len() - c,
{
    if c < edges.len() && edges[c as int].0 <= limit {
        due_end(edges, c + 1, limit)
    } else {
        c
    }
}

/// A due edge: its cycle, its schedule's generation, its place in the
/// schedule, the output it drives and its level.
pub struct Due {
    pub at: u64,
    pub generation: u64,
    pub index: nat,
    pub output: Seq<char>,
    pub level: bool,
}

/// The edges of one schedule due by `limit`, in order.
pub open spec fn dues_of(a: ActiveV, limit: u64) -> Seq<Due> {
    let end = due_end(a.edges, a.cursor, limit);
    Seq::new(
        (end - a.cursor) as nat,
        |k: int|
            Due {
                at: a.edges[a.cursor + k].0,
                generation: a.generation,
                index: (a.cursor + k) as nat,
                output: a.output,
                level: a.edges[a.cursor + k].1,
            },
    )
}

/// The due edges of the schedules from `i` on, schedule by schedule in name
/// order.
pub open spec fn dues_from(s: Seq<(Seq<char>, ActiveV)>, i: nat, now: u64, interval: u64) -> Seq<Due>
    decreases s.len() - i,
{
    if i >= s.len() {
        Seq::empty()
    } else {
        dues_of(s[i as int].1, service_limit(s[i as int].1.timing, now, interval)) + dues_from(
            s,
            i + 1,
            now,
            interval,
        )
    }
}

/// A schedule played up to `now`: its cursor past every due edge.
pub open spec fn played_one(a: ActiveV, now: u64, interval: u64) -> ActiveV {
    ActiveV {
        output: a.output,
        timing: a.timing,
        edges: a.edges,
        cursor: due_end(a.edges, a.cursor, service_limit(a.timing, now, interval)),
        generation: a.generation,
    }
}

pub open spec fn played(s: Seq<(Seq<char>, ActiveV)>, now: u64, interval: u64) -> Seq<(Seq<char>, ActiveV)> {
    Seq::new(s.len(), |i: int| (s[i].0, played_one(s[i].1, now, interval)))
}

/// `a` is as late as `b`: by cycle, then generation, then place.
pub open spec fn as_late(a: Due, b: Due) -> bool {
    a.at > b.at || (a.at == b.at && (a.generation > b.generation || (a.generation == b.generation
        && a.index >= b.index)))
}

/// Among the first `n` due edges, the one that sets `output`: the latest,
/// and of equally late ones the last listed.
pub open spec fn winner(due: Seq<Due>, output: Seq<char>, n: nat) -> Option<nat>
    decreases n,
{
    if n == 0 {
        None
    } else {
        let prev = winner(due, output, (n - 1) as nat);
        let d = due[n - 1];
        if d.output != output {
            prev
        } else {
            match prev {
                None => Some((n - 1) as nat),
                Some(w) => if as_late(d, due[w as int]) {
                    Some((n - 1) as nat)
                } else {
                    Some(w)
                },
            }
        }
    }
}

/// `r` is what servicing the due edges `due` shows: each output that has a
/// due edge, once, in name order, at the level its winning edge drives.
pub open spec fn settled(due: Seq<Due>, r: Seq<(Seq<char>, bool)>) -> bool {
    &&& forall|i: int, j: int| 0 <= i < j < r.len() ==> lex_less(#[trigger] r[i].0, #[trigger] r[j].0)
    &&& forall|k: int|
        0 <= k < r.len() ==> (winner(due, (#[trigger] r[k]).0, due.len()) matches Some(w) && r[k].1
            == due[w as int].level)
    &&& forall|j: int| 0 <= j < due.len() ==> exists|k: int| 0 <= k < r.len() && r[k].0 == (#[trigger] due[j]).output
}

pub open spec fn outputs_view(r: Seq<(String, bool)>) -> Seq<(Seq<char>, bool)> {
    r.map_values(|p: (String, bool)| (p.0@, p.1))
}

proof fn lemma_winner_is_of(due: Seq<Due>, output: Seq<char>, n: nat)
    requires
        n <= due.len(),
    ensures
        winner(due, output, n) matches Some(w) ==> w < n && due[w as int].output == output,
    decreases n,
{
    if n > 0 {
        lemma_winner_is_of(due, output, (n - 1) as nat);
    }
}

/// A due edge, as collected.
struct DueEdge {
    at: u64,
    generation: u64,
    index: usize,
    output: String,
    level: bool,
}

spec fn due_view(d: Seq<DueEdge>) -> Seq<Due> {
    d.map_values(
        |e: DueEdge|
            Due { at: e.at, generation: e.generation, index: e.index as nat, output: e.output@, level: e.level },
    )
}

/// The level an output is set to so far, and the edge that set it.
struct Setting {
    output: String,
    at: u64,
    generation: u64,
    index: usize,
    level: bool,
    winner: Ghost<nat>,
}

/// The settings so far, after the first `n` due edges: one per output seen,
/// in name order, each the winner's.
#[verifier::opaque]
spec fn settings_ok(due: Seq<Due>, n: nat, acc: Seq<Setting>) -> bool {
    &&& forall|i: int, j: int|
        0 <= i < j < acc.len() ==> lex_less(#[trigger] acc[i].output@, #[trigger] acc[j].output@)
    &&& forall|k: int|
        #![trigger acc[k]]
        0 <= k < acc.len() ==> {
            let w = acc[k].winner@;
            &&& winner(due, acc[k].output@, n) == Some(w)
            &&& w < due.len()
            &&& due[w as int].at == acc[k].at
            &&& due[w as int].generation == acc[k].generation
            &&& due[w as int].index == acc[k].index
            &&& due[w as int].level == acc[k].level
        }
    &&& forall|j: int| 0 <= j < n ==> exists|k: int| 0 <= k < acc.len() && acc[k].output@ == (#[trigger] due[j]).output
}

proof fn lemma_settled(dv: Seq<Due>, acc: Seq<Setting>, r: Seq<(Seq<char>, bool)>)
    requires
        settings_ok(dv, dv.len(), acc),
        r.len() == acc.len(),
        forall|m: int| 0 <= m < r.len() ==> #[trigger] r[m] == (acc[m].output@, acc[m].level),
    ensures
        settled(dv, r),
{
    reveal(settings_ok);
    assert forall|j: int| 0 <= j < dv.len() implies exists|q: int|
        0 <= q < r.len() && r[q].0 == (#[trigger] dv[j]).output by {
        let q = choose|q: int| 0 <= q < acc.len() && acc[q].output@ == dv[j].output;
        assert(r[q].0 == dv[j].output);
    }
    assert forall|a: int, b: int| 0 <= a < b < r.len() implies lex_less(#[trigger] r[a].0, #[trigger] r[b].0) by {
        assert(r[a].0 == acc[a].output@ && r[b].0 == acc[b].output@);
    }
    assert forall|m: int| 0 <= m < r.len() implies (winner(dv, (#[trigger] r[m]).0, dv.len()) matches Some(w)
        && r[m].1 == dv[w as int].level) by {
        assert(r[m].0 == acc[m].output@);
        assert(acc[m] == acc[m]);
    }
}

fn as_late_exec(d: &DueEdge, s: &Setting) -> (r: bool)
    ensures
        r == as_late(
            Due { at: d.at, generation: d.generation, index: d.index as nat, output: d.output@, level: d.level },
            Due { at: s.at, generation: s.generation, index: s.index as nat, output: s.output@, level: s.level },
        ),
{
    d.at > s.at || (d.at == s.at && (d.generation > s.generation || (d.generation == s.generation
        && d.index >= s.index)))
}

/// Settles the due edges: for each output, the level of its winning edge;
/// the outputs in name order.
fn settle(due: &Vec<DueEdge>) -> (r: Vec<(String, bool)>)
    ensures
        settled(due_view(due@), outputs_view(r@)),
{
    let ghost dv = due_view(due@);
    let mut acc: Vec<Setting> = Vec::new();
    proof {
        reveal(settings_ok);
    }
    let mut i: usize = 0;
    while i < due.len()
        invariant
            i <= due.len(),
            dv == due_view(due@),
            settings_ok(dv, i as nat, acc@),
        decreases due.len() - i,
    {
        reveal(settings_ok);
        let d = &due[i];
        assert(dv[i as int].output == d.output@);
        let mut k: usize = 0;
        while k < acc.len() && text_less(&acc[k].output, &d.output)
            invariant
                k <= acc.len(),
                settings_ok(dv, i as nat, acc@),
                forall|j: int| 0 <= j < k ==> lex_less(#[trigger] acc@[j].output@, d.output@),
            decreases acc.len() - k,
        {
            k = k + 1;
        }
        proof {
            lemma_winner_is_of(dv, d.output@, i as nat);
            lemma_winner_is_of(dv, d.output@, (i + 1) as nat);
        }
        let ghost old_acc = acc@;
        if k < acc.len() && acc[k].output == d.output {
            if as_late_exec(d, &acc[k]) {
                let s = Setting {
                    output: d.output.clone(),
                    at: d.at,
                    generation: d.generation,
                    index: d.index,
                    level: d.level,
                    winner: Ghost(i as nat),
                };
                acc.set(k, s);
            }
            proof {
                assert forall|m: int| #![trigger acc@[m]] 0 <= m < acc@.len() implies winner(
                    dv,
                    acc@[m].output@,
                    (i + 1) as nat,
                ) == Some(acc@[m].winner@) by {
                    if m != k {
                        assert(old_acc[m].output@ != d.output@) by {
                            if m < k {
                                lemma_lex_irreflexive(d.output@);
                            } else {
                                assert(lex_less(old_acc[k as int].output@, old_acc[m].output@));
                                lemma_lex_irreflexive(d.output@);
                            }
                        }
                    }
                }
                assert forall|j: int| 0 <= j < i + 1 implies exists|q: int|
                    0 <= q < acc@.len() && acc@[q].output@ == (#[trigger] dv[j]).output by {
                    if j == i {
                        assert(acc@[k as int].output@ == dv[j].output);
                    } else {
                        let q = choose|q: int| 0 <= q < old_acc.len() && old_acc[q].output@ == dv[j].output;
                        assert(acc@[q].output@ == dv[j].output);
                    }
                }
            }
        } else {
            proof {
                if k < acc.len() {
                    lemma_lex_total(d.output@, acc@[k as int].output@);
                }
                if winner(dv, d.output@, i as nat) is Some {
                    let w = winner(dv, d.output@, i as nat)->0;
                    let q = choose|q: int| 0 <= q < old_acc.len() && old_acc[q].output@ == dv[w as int].output;
                    if q < k {
                        lemma_lex_irreflexive(d.output@);
                    } else if q > k {
                        lemma_lex_transitive(d.output@, old_acc[k as int].output@, old_acc[q].output@);
                        lemma_lex_irreflexive(d.output@);
                    }
                }
            }
            let s = Setting {
                output: d.output.clone(),
                at: d.at,
                generation: d.generation,
                index: d.index,
                level: d.level,
                winner: Ghost(i as nat),
            };
            acc.insert(k, s);
            proof {
                if k < old_acc.len() {
                    assert(lex_less(d.output@, old_acc[k as int].output@));
                }
                assert forall|a: int, b: int| 0 <= a < b < acc@.len() implies lex_less(
                    #[trigger] acc@[a].output@,
                    #[trigger] acc@[b].output@,
                ) by {
                    if b < k {
                        assert(acc@[a] == old_acc[a] && acc@[b] == old_acc[b]);
                    } else if b == k {
                        assert(acc@[a] == old_acc[a]);
                    } else {
                        assert(acc@[b] == old_acc[b - 1]);
                        if a < k {
                            assert(acc@[a] == old_acc[a]);
                        } else if a == k {
                            if b - 1 > k {
                                lemma_lex_transitive(d.output@, old_acc[k as int].output@, old_acc[b - 1].output@);
                            }
                        } else {
                            assert(acc@[a] == old_acc[a - 1]);
                        }
                    }
                }
                assert forall|m: int| #![trigger acc@[m]] 0 <= m < acc@.len() implies winner(
                    dv,
                    acc@[m].output@,
                    (i + 1) as nat,
                ) == Some(acc@[m].winner@) by {
                    if m < k {
                        lemma_lex_irreflexive(d.output@);
                        assert(acc@[m] == old_acc[m]);
                    } else if m > k {
                        assert(acc@[m] == old_acc[m - 1]);
                        if m - 1 > k {
                            lemma_lex_transitive(d.output@, old_acc[k as int].output@, old_acc[m - 1].output@);
                        }
                        lemma_lex_irreflexive(d.output@);
                    }
                }
                assert forall|j: int| 0 <= j < i + 1 implies exists|q: int|
                    0 <= q < acc@.len() && acc@[q].output@ == (#[trigger] dv[j]).output by {
                    if j == i {
                        assert(acc@[k as int].output@ == dv[j].output);
                    } else {
                        let q = choose|q: int| 0 <= q < old_acc.len() && old_acc[q].output@ == dv[j].output;
                        if q < k {
                            assert(acc@[q].output@ == dv[j].output);
                        } else {
                            assert(acc@[q + 1].output@ == dv[j].output);
                        }
                    }
                }
            }
        }
        i = i + 1;
    }
    let mut out: Vec<(String, bool)> = Vec::new();
    let mut k: usize = 0;
    while k < acc.len()
        invariant
            k <= acc.len(),
            out.len() == k,
            settings_ok(dv, due.len() as nat, acc@),
            dv == due_view(due@),
            forall|m: int|
                0 <= m < k ==> #[trigger] outputs_view(out@)[m] == (acc@[m].output@, acc@[m].level),
        decreases acc.len() - k,
    {
        let ghost prev = out@;
        out.push((acc[k].output.clone(), acc[k].level));
        assert forall|m: int| 0 <= m < k + 1 implies #[trigger] outputs_view(out@)[m] == (
            acc@[m].output@,
            acc@[m].level,
        ) by {
            if m < k {
                assert(out@[m] == prev[m]);
                assert(outputs_view(prev)[m] == outputs_view(out@)[m]);
            }
        }
        k = k + 1;
    }
    proof {
        lemma_settled(dv, acc@, outputs_view(out@));
    }
    out
}

proof fn lemma_due_end(edges: Seq<(u64, bool)>, c: nat, limit: u64)
    requires
        c <= edges.len(),
    ensures
        c <= due_end(edges, c, limit) <= edges.len(),
        c < edges.len() && edges[c as int].0 <= limit ==> due_end(edges, c, limit) > c,
    decreases edges.len() - c,
{
    if c < edges.len() && edges[c as int].0 <= limit {
        lemma_due_end(edges, c + 1, limit);
    }
}

/// Collects the edges of `a` from `cursor` that are due by `limit`; gives
/// the cursor past them.
fn collect_due(a: &Active, cursor: usize, limit: u64, due: &mut Vec<DueEdge>) -> (end: usize)
    requires
        cursor <= a.edges.len(),
    ensures
        end == due_end(a.edges@, cursor as nat, limit),
        end <= a.edges.len(),
        due_view(final(due)@) == due_view(old(due)@) + dues_of(active_view(*a, cursor), limit),
{
    let ghost before = due_view(due@);
    let ghost av = active_view(*a, cursor);
    let mut c = cursor;
    while c < a.edges.len() && a.edges[c].0 <= limit
        invariant
            cursor <= c <= a.edges.len(),
            av == active_view(*a, cursor),
            due_end(a.edges@, c as nat, limit) == due_end(a.edges@, cursor as nat, limit),
            due_view(due@) == before + dues_of(av, limit).subrange(0, (c - cursor) as int),
            c - cursor <= dues_of(av, limit).len(),
        decreases a.edges.len() - c,
    {
        let ghost prev = due@;
        proof {
            lemma_due_end(a.edges@, c as nat, limit);
        }
        due.push(
            DueEdge {
                at: a.edges[c].0,
                generation: a.generation,
                index: c,
                output: a.output.clone(),
                level: a.edges[c].1,
            },
        );
        proof {
            let dd = dues_of(av, limit);
            assert(due_view(due@) =~= due_view(prev).push(dd[(c - cursor) as int]));
            assert(dd.subrange(0, (c - cursor) as int).push(dd[(c - cursor) as int]) =~= dd.subrange(
                0,
                (c + 1 - cursor) as int,
            ));
        }
        c = c + 1;
    }
    proof {
        lemma_due_end(a.edges@, cursor as nat, limit);
    }
    assert(dues_of(av, limit).subrange(0, (c - cursor) as int) =~= dues_of(av, limit));
    c
}

impl ScheduleBank {
    /// Plays every schedule up to `now` (or, under the tick-grid policy, up
    /// to the peripheral tick at or before it) and returns only the level
    /// each affected output shows at the serviced boundary; see `settled`.
    pub fn service(&mut self, now: u64, interval: u64) -> (r: Vec<(String, bool)>)
        requires
            old(self).wf(),
        ensures
            final(self).wf(),
            final(self)@.revision == old(self)@.revision,
            final(self)@.active == played(old(self)@.active, now, interval),
            settled(dues_from(old(self)@.active, 0, now, interval), outputs_view(r@)),
    {
        let ghost s0 = self@.active;
        let ghost e0 = self.entries@;
        let mut due: Vec<DueEdge> = Vec::new();
        let mut k: usize = 0;
        assert(due_view(due@) + dues_from(s0, 0, now, interval) =~= dues_from(s0, 0, now, interval));
        while k < self.entries.len()
            invariant
                k <= self.entries.len(),
                self.entries@ == e0,
                self.revision == old(self).revision,
                self.cursors@.len() == self.entries@.len(),
                s0.len() == e0.len(),
                forall|i: int|
                    0 <= i < s0.len() ==> #[trigger] s0[i] == (e0[i].0@, active_view(e0[i].1, old(self).cursors@[i])),
                old(self).cursors@.len() == e0.len(),
                bank_wf(bank_of(s0)),
                forall|i: int| 0 <= i < k ==> #[trigger] self.cursors@[i] == due_end(
                    s0[i].1.edges,
                    s0[i].1.cursor,
                    service_limit(s0[i].1.timing, now, interval),
                ),
                forall|i: int| k <= i < s0.len() ==> #[trigger] self.cursors@[i] == old(self).cursors@[i],
                due_view(due@) + dues_from(s0, k as nat, now, interval) == dues_from(s0, 0, now, interval),
            decreases self.entries.len() - k,
        {
            assert(s0[k as int] == (e0[k as int].0@, active_view(e0[k as int].1, old(self).cursors@[k as int])));
            let a = &self.entries[k].1;
            let limit = match a.timing {
                ScheduleTiming::Exact => now,
                ScheduleTiming::PeripheralTickGrid => {
                    let i = if interval == 0 {
                        1
                    } else {
                        interval
                    };
                    assert((now / i) * i <= now) by (nonlinear_arith)
                        requires
                            i > 0,
                    ;
                    now / i * i
                },
            };
            assert(limit == service_limit(s0[k as int].1.timing, now, interval));
            let c = self.cursors[k];
            let ghost prev = due_view(due@);
            assert(old(self).cursors@[k as int] <= e0[k as int].1.edges@.len()) by {
                assert(s0[k as int].1.cursor <= s0[k as int].1.edges.len());
            }
            let end = collect_due(a, c, limit, &mut due);
            proof {
                assert(prev + dues_from(s0, k as nat, now, interval) =~= (prev + dues_of(
                    s0[k as int].1,
                    limit,
                )) + dues_from(s0, (k + 1) as nat, now, interval));
            }
            self.cursors.set(k, end);
            k = k + 1;
        }
        assert(due_view(due@) + Seq::<Due>::empty() =~= due_view(due@));
        let r = settle(&due);
        assert(self@.active =~= played(s0, now, interval)) by {
            assert forall|i: int| 0 <= i < s0.len() implies #[trigger] self@.active[i] == played(
                s0,
                now,
                interval,
            )[i] by {
                assert(s0[i] == (e0[i].0@, active_view(e0[i].1, old(self).cursors@[i])));
            }
        }
        assert(bank_wf(self@)) by {
            assert forall|i: int| 0 <= i < self@.active.len() implies (#[trigger] self@.active[i]).1.cursor
                <= self@.active[i].1.edges.len() by {
                assert(s0[i].1.cursor <= s0[i].1.edges.len());
                lemma_due_end(s0[i].1.edges, s0[i].1.cursor, service_limit(s0[i].1.timing, now, interval));
            }
            assert forall|i: int, j: int| 0 <= i < j < self@.active.len() implies lex_less(
                #[trigger] self@.active[i].0,
                #[trigger] self@.active[j].0,
            ) by {
                assert(self@.active[i].0 == s0[i].0 && self@.active[j].0 == s0[j].0);
            }
        }
        r
    }
}

impl Default for ScheduleBank {
    /// An empty bank at revision 0.
    fn default() -> (r: ScheduleBank)
        ensures
            r@.active.len() == 0,
            r@.revision == 0,
            r.wf(),
    {
        ScheduleBank::new()
    }
}

// ─── laws ──────────────────────────────────────────────────────────────────

proof fn lemma_due_end_idempotent(edges: Seq<(u64, bool)>, c: nat, limit: u64)
    requires
        c <= edges.len(),
    ensures
        due_end(edges, due_end(edges, c, limit), limit) == due_end(edges, c, limit),
    decreases edges.len() - c,
{
    if c < edges.len() && edges[c as int].0 <= limit {
        lemma_due_end_idempotent(edges, c + 1, limit);
    }
}

proof fn lemma_nothing_due_after_play(s: Seq<(Seq<char>, ActiveV)>, i: nat, now: u64, interval: u64)
    requires
        bank_wf(bank_of(s)),
    ensures
        dues_from(played(s, now, interval), i, now, interval) == Seq::<Due>::empty(),
    decreases s.len() - i,
{
    if i < s.len() {
        lemma_nothing_due_after_play(s, i + 1, now, interval);
        let a = s[i as int].1;
        let limit = service_limit(a.timing, now, interval);
        lemma_due_end_idempotent(a.edges, a.cursor, limit);
        assert(played(s, now, interval)[i as int].1 == played_one(a, now, interval));
        assert(dues_of(played_one(a, now, interval), limit) =~= Seq::<Due>::empty());
    }
}

/// Servicing is idempotent: once a bank has been serviced at `now`, servicing
/// it again at `now` finds nothing due, so it changes no output and moves no
/// cursor.
pub proof fn lemma_service_twice_is_quiet(s: Seq<(Seq<char>, ActiveV)>, now: u64, interval: u64)
    requires
        bank_wf(bank_of(s)),
    ensures
        dues_from(played(s, now, interval), 0, now, interval) == Seq::<Due>::empty(),
        played(played(s, now, interval), now, interval) == played(s, now, interval),
{
    lemma_nothing_due_after_play(s, 0, now, interval);
    let p = played(s, now, interval);
    assert forall|i: int| 0 <= i < p.len() implies #[trigger] played(p, now, interval)[i] == p[i] by {
        let a = s[i].1;
        lemma_due_end_idempotent(a.edges, a.cursor, service_limit(a.timing, now, interval));
    }
    assert(played(p, now, interval) =~= p);
}

/// The edges of a walk are in time order, none after where it stands, none
/// before `start`.
pub open spec fn walk_ordered(w: Walk, start: u64) -> bool {
    &&& start <= w.at
    &&& forall|i: int| 0 <= i < w.edges.len() ==> start <= #[trigger] w.edges[i].0 <= w.at
    &&& forall|i: int, j: int| 0 <= i < j < w.edges.len() ==> #[trigger] w.edges[i].0 <= #[trigger] w.edges[j].0
}

proof fn lemma_play_ordered(h: ScheduleHold, w: Walk, start: u64)
    requires
        walk_ordered(w, start),
    ensures
        play(h, w) matches Ok(w2) ==> walk_ordered(w2, start),
{
}

proof fn lemma_play_all_ordered(hs: Seq<ScheduleHold>, i: nat, w: Walk, start: u64)
    requires
        walk_ordered(w, start),
    ensures
        play_all(hs, i, w) matches Ok(w2) ==> walk_ordered(w2, start),
    decreases hs.len() - i,
{
    if i < hs.len() {
        lemma_play_ordered(hs[i as int], w, start);
        if let Ok(w2) = play(hs[i as int], w) {
            lemma_play_all_ordered(hs, i + 1, w2, start);
        }
    }
}

proof fn lemma_play_bits_ordered(b: ScheduleBits, value: u64, index: u8, w: Walk, start: u64)
    requires
        walk_ordered(w, start),
    ensures
        play_bits(b, value, index, w) matches Ok(w2) ==> walk_ordered(w2, start),
    decreases b.count - index,
{
    if index < b.count {
        let hs = if bit_set(value, b.count, b.order, index) {
            b.one@
        } else {
            b.zero@
        };
        lemma_play_all_ordered(hs, 0, w, start);
        if let Ok(w2) = play_all(hs, 0, w) {
            lemma_play_bits_ordered(b, value, (index + 1) as u8, w2, start);
        }
    }
}

proof fn lemma_play_segments_ordered(
    segs: Seq<ScheduleSegment>,
    i: nat,
    values: Seq<i64>,
    vi: nat,
    w: Walk,
    start: u64,
)
    requires
        walk_ordered(w, start),
    ensures
        play_segments(segs, i, values, vi, w) matches Ok(w2) ==> walk_ordered(w2, start),
    decreases segs.len() - i,
{
    if i < segs.len() {
        match segs[i as int] {
            ScheduleSegment::Hold(h) => {
                lemma_play_ordered(h, w, start);
                if let Ok(w2) = play(h, w) {
                    lemma_play_segments_ordered(segs, i + 1, values, vi, w2, start);
                }
            },
            ScheduleSegment::Bits(b) => if vi < values.len() {
                lemma_play_bits_ordered(b, values[vi as int] as u64, 0, w, start);
                if let Ok(w2) = play_bits(b, values[vi as int] as u64, 0, w) {
                    lemma_play_segments_ordered(segs, i + 1, values, vi + 1, w2, start);
                }
            },
        }
    }
}

/// An expansion is a time-ordered waveform: its edges never run backwards
/// and none comes before the cycle it was expanded from.
pub proof fn lemma_expansion_in_time_order(spec: GpioScheduleSpec, values: Seq<i64>, now: u64)
    ensures
        expansion(spec, values, now) matches Ok(edges) ==> {
            &&& forall|i: int| 0 <= i < edges.len() ==> now <= #[trigger] edges[i].0
            &&& forall|i: int, j: int|
                0 <= i < j < edges.len() ==> #[trigger] edges[i].0 <= #[trigger] edges[j].0
        },
{
    let w0 = Walk { at: now, level: spec.idle, edges: Seq::empty() };
    lemma_play_segments_ordered(spec.segments@, 0, values, 0, w0, now);
}


/// The edges the segments from `i` on may add at most: one per hold, and
/// a run's bit count times its longer hold list.
pub open spec fn edges_from(segs: Seq<ScheduleSegment>, i: nat) -> nat
    decreases segs.len() - i,
{
    if i >= segs.len() {
        0
    } else {
        segment_edges(segs[i as int]) + edges_from(segs, i + 1)
    }
}

/// Every segment from `i` on is well shaped and has no malformed hold.
pub open spec fn well_formed_from(segs: Seq<ScheduleSegment>, i: nat) -> bool {
    forall|j: int|
        i <= j < segs.len() ==> #[trigger] segment_shape(segs[j]) is None && segment_fault(segs[j])
            is None
}

/// A schedule validates exactly when every segment is well shaped with no
/// malformed hold and its edges, start and final edge included, number at
/// most 4096.
pub proof fn lemma_validation_iff(spec: GpioScheduleSpec)
    ensures
        validation(spec) is Ok <==> well_formed_from(spec.segments@, 0) && 2 + edges_from(
            spec.segments@,
            0,
        ) <= MAX_EDGES,
{
    lemma_validate_from_iff(spec.segments@, 0, 2);
}

proof fn lemma_validate_from_iff(segs: Seq<ScheduleSegment>, i: nat, count: nat)
    requires
        count <= MAX_EDGES,
    ensures
        validate_from(segs, i, count) is Ok <==> well_formed_from(segs, i) && count + edges_from(
            segs,
            i,
        ) <= MAX_EDGES,
    decreases segs.len() - i,
{
    if i < segs.len() {
        let seg = segs[i as int];
        if count + segment_edges(seg) <= MAX_EDGES {
            lemma_validate_from_iff(segs, i + 1, count + segment_edges(seg));
        }
        assert(segment_shape(segs[i as int]) is None && segment_fault(segs[i as int]) is None
            <== well_formed_from(segs, i));
        if well_formed_from(segs, i) {
            assert forall|j: int| i + 1 <= j < segs.len() implies #[trigger] segment_shape(segs[j])
                is None && segment_fault(segs[j]) is None by {
                assert(i <= j);
            }
        }
        if segment_shape(seg) is None && segment_fault(seg) is None && well_formed_from(
            segs,
            i + 1,
        ) {
            assert forall|j: int| i <= j < segs.len() implies #[trigger] segment_shape(segs[j])
                is None && segment_fault(segs[j]) is None by {
                if j > i {
                    assert(i + 1 <= j);
                }
            }
        }
    }
}

/// The level driven after `edges` from `start`.
pub open spec fn last_level(edges: Seq<(u64, bool)>, start: bool) -> bool {
    if edges.len() == 0 {
        start
    } else {
        edges.last().1
    }
}

/// Every edge of `edges` changes the level, `start` before the first.
pub open spec fn alternates(edges: Seq<(u64, bool)>, start: bool) -> bool {
    forall|i: int|
        0 <= i < edges.len() ==> #[trigger] edges[i].1 != (if i == 0 {
            start
        } else {
            edges[i - 1].1
        })
}

/// A walk whose edges alternate from `start` and whose level is the last one.
pub open spec fn walk_alternates(w: Walk, start: bool) -> bool {
    alternates(w.edges, start) && w.level == last_level(w.edges, start)
}

proof fn lemma_play_alternates(h: ScheduleHold, w: Walk, start: bool)
    requires
        walk_alternates(w, start),
        play(h, w) is Ok,
    ensures
        walk_alternates(play(h, w)->Ok_0, start),
        play(h, w)->Ok_0.edges.len() <= w.edges.len() + 1,
{
    let w2 = play(h, w)->Ok_0;
    if h.level != w.level {
        assert forall|i: int| 0 <= i < w2.edges.len() implies #[trigger] w2.edges[i].1 != (if i
            == 0 {
            start
        } else {
            w2.edges[i - 1].1
        }) by {
            if i < w.edges.len() {
                assert(w2.edges[i] == w.edges[i]);
                if i > 0 {
                    assert(w2.edges[i - 1] == w.edges[i - 1]);
                }
            } else if i > 0 {
                assert(w2.edges[i - 1] == w.edges[i - 1]);
            }
        }
    }
}

proof fn lemma_play_all_alternates(hs: Seq<ScheduleHold>, i: nat, w: Walk, start: bool)
    requires
        walk_alternates(w, start),
        play_all(hs, i, w) is Ok,
        i <= hs.len(),
    ensures
        walk_alternates(play_all(hs, i, w)->Ok_0, start),
        play_all(hs, i, w)->Ok_0.edges.len() <= w.edges.len() + (hs.len() - i),
    decreases hs.len() - i,
{
    if i < hs.len() {
        lemma_play_alternates(hs[i as int], w, start);
        lemma_play_all_alternates(hs, i + 1, play(hs[i as int], w)->Ok_0, start);
    }
}

proof fn lemma_play_bits_alternates(b: ScheduleBits, value: u64, index: u8, w: Walk, start: bool)
    requires
        walk_alternates(w, start),
        play_bits(b, value, index, w) is Ok,
        index <= b.count,
    ensures
        walk_alternates(play_bits(b, value, index, w)->Ok_0, start),
        play_bits(b, value, index, w)->Ok_0.edges.len() <= w.edges.len() + (b.count - index) * longer(
            b.zero@.len(),
            b.one@.len(),
        ),
    decreases b.count - index,
{
    if index < b.count {
        let hs = if bit_set(value, b.count, b.order, index) {
            b.one@
        } else {
            b.zero@
        };
        let l = longer(b.zero@.len(), b.one@.len());
        assert(hs.len() <= l);
        lemma_play_all_alternates(hs, 0, w, start);
        let w2 = play_all(hs, 0, w)->Ok_0;
        lemma_play_bits_alternates(b, value, (index + 1) as u8, w2, start);
        let k = b.count - index;
        assert((k - 1) * l + l == k * l) by (nonlinear_arith);
    }
}

proof fn lemma_play_segments_alternates(
    segs: Seq<ScheduleSegment>,
    i: nat,
    values: Seq<i64>,
    vi: nat,
    w: Walk,
    start: bool,
)
    requires
        walk_alternates(w, start),
        play_segments(segs, i, values, vi, w) is Ok,
    ensures
        walk_alternates(play_segments(segs, i, values, vi, w)->Ok_0, start),
        play_segments(segs, i, values, vi, w)->Ok_0.edges.len() <= w.edges.len() + edges_from(segs, i),
    decreases segs.len() - i,
{
    if i < segs.len() {
        match segs[i as int] {
            ScheduleSegment::Hold(h) => {
                lemma_play_alternates(h, w, start);
                lemma_play_segments_alternates(segs, i + 1, values, vi, play(h, w)->Ok_0, start);
            },
            ScheduleSegment::Bits(b) => {
                lemma_play_bits_alternates(b, values[vi as int] as u64, 0, w, start);
                lemma_play_segments_alternates(
                    segs,
                    i + 1,
                    values,
                    vi + 1,
                    play_bits(b, values[vi as int] as u64, 0, w)->Ok_0,
                    start,
                );
            },
        }
    }
}

/// Every edge an expansion makes changes the level (the idle level before
/// the first), the last edge leaves the final level (with no edges, idle is
/// final), and an expansion has fewer than 4096 edges.
pub proof fn lemma_expansion_alternates(spec: GpioScheduleSpec, values: Seq<i64>, now: u64)
    ensures
        expansion(spec, values, now) matches Ok(edges) ==> {
            &&& alternates(edges, spec.idle)
            &&& last_level(edges, spec.idle) == spec.final_level
            &&& edges.len() < MAX_EDGES
        },
{
    if expansion(spec, values, now) is Ok {
        let w0 = Walk { at: now, level: spec.idle, edges: Seq::empty() };
        lemma_validation_iff(spec);
        lemma_play_segments_alternates(spec.segments@, 0, values, 0, w0, spec.idle);
        let w = play_segments(spec.segments@, 0, values, 0, w0)->Ok_0;
        if w.level != spec.final_level {
            let e = w.edges.push((w.at, spec.final_level));
            assert forall|i: int| 0 <= i < e.len() implies #[trigger] e[i].1 != (if i == 0 {
                spec.idle
            } else {
                e[i - 1].1
            }) by {
                if i < w.edges.len() {
                    assert(e[i] == w.edges[i]);
                    if i > 0 {
                        assert(e[i - 1] == w.edges[i - 1]);
                    }
                } else if i > 0 {
                    assert(e[i - 1] == w.edges[i - 1]);
                }
            }
        }
    }
}


/// The earliest deadline among the schedules from `i` on is no later than
/// any of their deadlines and is one of them; it is none exactly when none
/// of them has a next edge to show.
proof fn lemma_earliest_from_is_least(s: Seq<(Seq<char>, ActiveV)>, i: nat, interval: u64)
    ensures
        earliest_from(s, i, interval) matches Some(d) ==> {
            &&& forall|k: int|
                i <= k < s.len() ==> (#[trigger] deadline_of(s[k].1, interval) matches Some(e) ==> d
                    <= e)
            &&& exists|k: int| i <= k < s.len() && #[trigger] deadline_of(s[k].1, interval) == Some(d)
        },
        earliest_from(s, i, interval) is None ==> forall|k: int|
            i <= k < s.len() ==> #[trigger] deadline_of(s[k].1, interval) is None,
    decreases s.len() - i,
{
    if i < s.len() {
        lemma_earliest_from_is_least(s, i + 1, interval);
        let here = deadline_of(s[i as int].1, interval);
        let rest = earliest_from(s, i + 1, interval);
        if let Some(d) = earliest_from(s, i, interval) {
            assert forall|k: int|
                i <= k < s.len() implies (#[trigger] deadline_of(s[k].1, interval) matches Some(e) ==> d
                <= e) by {
                if k > i {
                    assert(i + 1 <= k);
                }
            }
            if here == Some(d) {
                assert(deadline_of(s[i as int].1, interval) == Some(d));
            } else {
                assert(rest == Some(d));
                let k = choose|k: int|
                    i + 1 <= k < s.len() && #[trigger] deadline_of(s[k].1, interval) == Some(d);
                assert(deadline_of(s[k].1, interval) == Some(d));
            }
        } else {
            assert forall|k: int| i <= k < s.len() implies #[trigger] deadline_of(s[k].1, interval)
                is None by {
                if k > i {
                    assert(i + 1 <= k);
                }
            }
        }
    }
}

/// The bank's next deadline is the earliest next edge of its schedules: no
/// later than the visible cycle of any active schedule's next edge, and
/// equal to one of them; none exactly when no schedule has an edge left.
pub proof fn lemma_next_deadline_is_earliest(bank: ScheduleBank, interval: u64)
    ensures
        earliest_from(bank@.active, 0, interval) matches Some(d) ==> {
            &&& forall|k: int|
                0 <= k < bank@.active.len() ==> (#[trigger] deadline_of(bank@.active[k].1, interval)
                    matches Some(e) ==> d <= e)
            &&& exists|k: int|
                0 <= k < bank@.active.len() && #[trigger] deadline_of(bank@.active[k].1, interval)
                    == Some(d)
        },
        earliest_from(bank@.active, 0, interval) is None ==> forall|k: int|
            0 <= k < bank@.active.len() ==> #[trigger] deadline_of(bank@.active[k].1, interval) is None,
{
    lemma_earliest_from_is_least(bank@.active, 0, interval);
}


/// Of the first `n` due edges, the one that sets `output` is the latest of
/// that output's edges: no edge of it is at a later cycle, none at the same
/// cycle belongs to a later start, and none of the same start comes later in
/// the list. Without one, no edge of that output is due.
pub proof fn lemma_last_writer_wins(due: Seq<Due>, output: Seq<char>, n: nat)
    requires
        n <= due.len(),
    ensures
        winner(due, output, n) matches Some(w) ==> {
            &&& w < n
            &&& due[w as int].output == output
            &&& forall|j: int|
                0 <= j < n && #[trigger] due[j].output == output ==> {
                    ||| due[j].at < due[w as int].at
                    ||| due[j].at == due[w as int].at && due[j].generation < due[w as int].generation
                    ||| due[j].at == due[w as int].at && due[j].generation == due[w as int].generation
                        && due[j].index <= due[w as int].index
                }
        },
        winner(due, output, n) is None ==> forall|j: int|
            0 <= j < n ==> #[trigger] due[j].output != output,
    decreases n,
{
    if n > 0 {
        lemma_last_writer_wins(due, output, (n - 1) as nat);
    }
}


/// Starting or cancelling a schedule under `name` replaces what ran under
/// that name and nothing else: afterwards `name` runs `a`, every schedule
/// under another name runs as before, and nothing else runs.
pub proof fn lemma_upsert_replaces_only_its_name(
    s: Seq<(Seq<char>, ActiveV)>,
    name: Seq<char>,
    a: ActiveV,
)
    requires
        bank_wf(BankV { active: s, revision: 0 }),
    ensures
        upsert(s, name, a).contains((name, a)),
        forall|k: int| 0 <= k < s.len() && s[k].0 != name ==> upsert(s, name, a).contains(#[trigger] s[k]),
        forall|k: int|
            0 <= k < upsert(s, name, a).len() ==> #[trigger] upsert(s, name, a)[k] == (name, a) || (
            upsert(s, name, a)[k].0 != name && s.contains(upsert(s, name, a)[k])),
    decreases s.len(),
{
    let u = upsert(s, name, a);
    if s.len() == 0 {
        assert(u[0] == (name, a));
    } else if s[0].0 == name {
        assert(u[0] == (name, a));
        assert forall|k: int| 0 <= k < s.len() && s[k].0 != name implies u.contains(#[trigger] s[k]) by {
            assert(k > 0);
            assert(u[k] == s[k]);
        }
        assert forall|k: int| 0 <= k < u.len() implies #[trigger] u[k] == (name, a) || (u[k].0 != name
            && s.contains(u[k])) by {
            if k > 0 {
                assert(u[k] == s[k]);
                assert(lex_less(s[0].0, s[k].0));
                lemma_lex_irreflexive(name);
            }
        }
    } else if lex_less(name, s[0].0) {
        assert(u[0] == (name, a));
        assert forall|k: int| 0 <= k < s.len() && s[k].0 != name implies u.contains(#[trigger] s[k]) by {
            assert(u[k + 1] == s[k]);
        }
        assert forall|k: int| 0 <= k < u.len() implies #[trigger] u[k] == (name, a) || (u[k].0 != name
            && s.contains(u[k])) by {
            if k > 0 {
                assert(u[k] == s[k - 1]);
                if k > 1 {
                    assert(lex_less(s[0].0, s[k - 1].0));
                    lemma_lex_transitive(name, s[0].0, s[k - 1].0);
                }
                lemma_lex_irreflexive(name);
            }
        }
    } else {
        let rest = s.drop_first();
        assert(bank_wf(BankV { active: rest, revision: 0 })) by {
            assert forall|i: int, j: int| 0 <= i < j < rest.len() implies lex_less(
                #[trigger] rest[i].0,
                #[trigger] rest[j].0,
            ) by {
                assert(rest[i] == s[i + 1] && rest[j] == s[j + 1]);
            }
            assert forall|i: int| 0 <= i < rest.len() implies (#[trigger] rest[i]).1.cursor
                <= rest[i].1.edges.len() by {
                assert(rest[i] == s[i + 1]);
            }
        }
        lemma_upsert_replaces_only_its_name(rest, name, a);
        let ur = upsert(rest, name, a);
        assert(u =~= seq![s[0]] + ur);
        let j = choose|j: int| 0 <= j < ur.len() && ur[j] == (name, a);
        assert(u[j + 1] == (name, a));
        assert forall|k: int| 0 <= k < s.len() && s[k].0 != name implies u.contains(#[trigger] s[k]) by {
            if k == 0 {
                assert(u[0] == s[0]);
            } else {
                assert(rest[k - 1] == s[k]);
                let i = choose|i: int| 0 <= i < ur.len() && ur[i] == rest[k - 1];
                assert(u[i + 1] == s[k]);
            }
        }
        assert forall|k: int| 0 <= k < u.len() implies #[trigger] u[k] == (name, a) || (u[k].0 != name
            && s.contains(u[k])) by {
            if k == 0 {
                assert(u[0] == s[0]);
                assert(s[0] == s[0]);
            } else {
                assert(u[k] == ur[k - 1]);
                if ur[k - 1] != (name, a) {
                    let i = choose|i: int| 0 <= i < rest.len() && rest[i] == ur[k - 1];
                    assert(s[i + 1] == u[k]);
                }
            }
        }
    }
}

} // verus!
