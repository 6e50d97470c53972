//! The wire protocol's messages: client actions and server perceptions.
//!
//! A client sends an `Action`: a sequence number and an ordered list of intent
//! steps. The server sends a `Perception`: a header carrying the last
//! confirmed action sequence and the client's assigned id, followed by a list
//! of percepts. Every message fits in `MAX_PACKET_SIZE` bytes; decoding is
//! total and rejects malformed input with a typed error.

use vstd::prelude::*;

use crate::game::data::{Body, Broadcast, EntityId, ManeuverData, Vec2};
use crate::wire::{
    dec_text, dec_u16, dec_u64, dec_u8, dec_i64, i64_sm, lemma_dec_i64, lemma_dec_text,
    lemma_dec_u16, lemma_dec_u64, put_i64, put_text, put_u16, put_u64, take_i64, take_text,
    take_u16, take_u64, take_u8, text_bytes, text_wf, u16_le, u64_le, DecodeError,
};

verus! {

/// No encoded message may be longer than this.
pub const MAX_PACKET_SIZE: usize = 512;

/// Sequence numbers of client actions: sender-assigned, strictly increasing.
pub type SeqNum = u64;

/// Leading byte of an encoded action.
pub const TAG_ACTION: u8 = 1;

/// Leading byte of an encoded perception.
pub const TAG_PERCEPTION: u8 = 2;

/// One intent of a client, the closed set of things it may ask for.
#[derive(Debug, PartialEq, Eq)]
pub enum Step {
    /// Open (or re-open, as a no-op) a session.
    Login,
    /// Keep the session alive without asking for anything.
    Heartbeat,
    /// Replace the client's pending broadcast with this text.
    Broadcast(String),
    /// Withdraw the client's pending broadcast.
    StopBroadcast,
    /// Schedule a thrust maneuver for the client's ship.
    SetManeuver(ManeuverData),
    /// Cancel one of the client's own maneuvers by entity id.
    CancelManeuver(EntityId),
}

/// The mathematical content of a `Step`: text as a character sequence.
pub ghost enum StepView {
    Login,
    Heartbeat,
    Broadcast(Seq<char>),
    StopBroadcast,
    SetManeuver(ManeuverData),
    CancelManeuver(EntityId),
}

impl Clone for Step {
    fn clone(&self) -> (r: Self)
        ensures
            r@ == self@,
    {
        match self {
            Step::Login => Step::Login,
            Step::Heartbeat => Step::Heartbeat,
            Step::Broadcast(t) => Step::Broadcast(t.clone()),
            Step::StopBroadcast => Step::StopBroadcast,
            Step::SetManeuver(m) => Step::SetManeuver(*m),
            Step::CancelManeuver(id) => Step::CancelManeuver(*id),
        }
    }
}

impl View for Step {
    type V = StepView;

    open spec fn view(&self) -> StepView {
        match self {
            Step::Login => StepView::Login,
            Step::Heartbeat => StepView::Heartbeat,
            Step::Broadcast(t) => StepView::Broadcast(t@),
            Step::StopBroadcast => StepView::StopBroadcast,
            Step::SetManeuver(m) => StepView::SetManeuver(*m),
            Step::CancelManeuver(id) => StepView::CancelManeuver(*id),
        }
    }
}

/// A client action: its sequence number and its steps, in order.
#[derive(Clone, Debug, PartialEq, Eq)]
pub struct Action {
    pub id: SeqNum,
    pub steps: Vec<Step>,
}

pub ghost struct ActionView {
    pub id: SeqNum,
    pub steps: Seq<StepView>,
}

impl View for Action {
    type V = ActionView;

    open spec fn view(&self) -> ActionView {
        ActionView { id: self.id, steps: views(self.steps@) }
    }
}

/// The views of a sequence of steps or percepts.
pub open spec fn views<T: View>(v: Seq<T>) -> Seq<T::V> {
    v.map_values(|x: T| x@)
}

/// One unit of world information inside a perception.
#[derive(Debug, PartialEq, Eq)]
pub enum Percept {
    /// A live broadcast: who sent it, and its text.
    Broadcast(Broadcast),
    /// The state of one entity's body.
    Entity(EntityId, Body),
}

pub ghost enum PerceptView {
    Broadcast(EntityId, Seq<char>),
    Entity(EntityId, Body),
}

impl Clone for Percept {
    fn clone(&self) -> (r: Self)
        ensures
            r@ == self@,
    {
        match self {
            Percept::Broadcast(bc) => Percept::Broadcast(bc.clone()),
            Percept::Entity(id, body) => Percept::Entity(*id, *body),
        }
    }
}

impl View for Percept {
    type V = PerceptView;

    open spec fn view(&self) -> PerceptView {
        match self {
            Percept::Broadcast(b) => PerceptView::Broadcast(b.sender, b.message@),
            Percept::Entity(id, body) => PerceptView::Entity(*id, *body),
        }
    }
}

/// What every perception opens with: the last action sequence processed from
/// the peer and, once known, the peer's assigned entity id.
#[derive(Clone, Copy, Debug, PartialEq, Eq, Structural)]
pub struct PerceptionHeader {
    pub confirm_action: SeqNum,
    pub self_id: Option<EntityId>,
}

/// A server perception: header plus percepts, in order.
#[derive(Clone, Debug, PartialEq, Eq)]
pub struct Perception {
    pub header: PerceptionHeader,
    pub percepts: Vec<Percept>,
}

pub ghost struct PerceptionView {
    pub header: PerceptionHeader,
    pub percepts: Seq<PerceptView>,
}

impl View for Perception {
    type V = PerceptionView;

    open spec fn view(&self) -> PerceptionView {
        PerceptionView { header: self.header, percepts: views(self.percepts@) }
    }
}

// --- spec encodings ---------------------------------------------------------

pub open spec fn maneuver_bytes(m: ManeuverData) -> Seq<u8> {
    u64_le(m.start_ms) + u64_le(m.duration_ms) + i64_sm(m.direction.x) + i64_sm(m.direction.y)
        + i64_sm(m.thrust)
}

pub open spec fn step_bytes(s: StepView) -> Seq<u8> {
    match s {
        StepView::Login => seq![1u8],
        StepView::Heartbeat => seq![2u8],
        StepView::Broadcast(t) => seq![3u8] + text_bytes(t),
        StepView::StopBroadcast => seq![4u8],
        StepView::SetManeuver(m) => seq![5u8] + maneuver_bytes(m),
        StepView::CancelManeuver(id) => seq![6u8] + u64_le(id),
    }
}

pub open spec fn parts_bytes<T>(ss: Seq<T>, one: spec_fn(T) -> Seq<u8>) -> Seq<u8>
    decreases ss.len(),
{
    if ss.len() == 0 {
        Seq::empty()
    } else {
        one(ss[0]) + parts_bytes(ss.drop_first(), one)
    }
}

pub open spec fn steps_bytes(ss: Seq<StepView>) -> Seq<u8> {
    parts_bytes(ss, |s: StepView| step_bytes(s))
}

pub open spec fn action_bytes(a: ActionView) -> Seq<u8> {
    seq![TAG_ACTION] + u64_le(a.id) + u16_le(a.steps.len() as u16) + steps_bytes(a.steps)
}

pub open spec fn body_bytes(b: Body) -> Seq<u8> {
    i64_sm(b.position.x) + i64_sm(b.position.y) + i64_sm(b.velocity.x) + i64_sm(b.velocity.y)
        + i64_sm(b.force.x) + i64_sm(b.force.y) + i64_sm(b.mass)
}

pub open spec fn percept_bytes(p: PerceptView) -> Seq<u8> {
    match p {
        PerceptView::Broadcast(sender, t) => seq![1u8] + u64_le(sender) + text_bytes(t),
        PerceptView::Entity(id, body) => seq![2u8] + u64_le(id) + body_bytes(body),
    }
}

pub open spec fn percepts_bytes(ps: Seq<PerceptView>) -> Seq<u8> {
    parts_bytes(ps, |p: PerceptView| percept_bytes(p))
}

pub open spec fn header_bytes(h: PerceptionHeader) -> Seq<u8> {
    seq![TAG_PERCEPTION] + u64_le(h.confirm_action) + (match h.self_id {
        Option::None => seq![0u8],
        Option::Some(id) => seq![1u8] + u64_le(id),
    })
}

pub open spec fn perception_bytes(p: PerceptionView) -> Seq<u8> {
    header_bytes(p.header) + u16_le(p.percepts.len() as u16) + percepts_bytes(p.percepts)
}

// --- well-formedness: what "representable" means ----------------------------

pub open spec fn step_wf(s: StepView) -> bool {
    match s {
        StepView::Broadcast(t) => text_wf(t),
        _ => true,
    }
}

pub open spec fn action_view_wf(a: ActionView) -> bool {
    &&& a.steps.len() <= u16::MAX
    &&& forall|k: int| 0 <= k < a.steps.len() ==> step_wf(#[trigger] a.steps[k])
}

pub open spec fn percept_wf(p: PerceptView) -> bool {
    match p {
        PerceptView::Broadcast(_, t) => text_wf(t),
        _ => true,
    }
}

pub open spec fn perception_view_wf(p: PerceptionView) -> bool {
    &&& p.percepts.len() <= u16::MAX
    &&& forall|k: int| 0 <= k < p.percepts.len() ==> percept_wf(#[trigger] p.percepts[k])
}

// --- spec decoders ----------------------------------------------------------

pub open spec fn dec_maneuver(b: Seq<u8>, i: int) -> Result<(ManeuverData, int), DecodeError> {
    match dec_u64(b, i) {
        Ok((start_ms, i1)) => match dec_u64(b, i1) {
            Ok((duration_ms, i2)) => match dec_i64(b, i2) {
                Ok((dx, i3)) => match dec_i64(b, i3) {
                    Ok((dy, i4)) => match dec_i64(b, i4) {
                        Ok((thrust, i5)) => Ok((
                            ManeuverData {
                                start_ms,
                                duration_ms,
                                direction: Vec2 { x: dx, y: dy },
                                thrust,
                            },
                            i5,
                        )),
                        Err(e) => Err(e),
                    },
                    Err(e) => Err(e),
                },
                Err(e) => Err(e),
            },
            Err(e) => Err(e),
        },
        Err(e) => Err(e),
    }
}

pub open spec fn dec_step(b: Seq<u8>, i: int) -> Result<(StepView, int), DecodeError> {
    match dec_u8(b, i) {
        Ok((tag, j)) => if tag == 1 {
            Ok((StepView::Login, j))
        } else if tag == 2 {
            Ok((StepView::Heartbeat, j))
        } else if tag == 3 {
            match dec_text(b, j) {
                Ok((t, k)) => Ok((StepView::Broadcast(t), k)),
                Err(e) => Err(e),
            }
        } else if tag == 4 {
            Ok((StepView::StopBroadcast, j))
        } else if tag == 5 {
            match dec_maneuver(b, j) {
                Ok((m, k)) => Ok((StepView::SetManeuver(m), k)),
                Err(e) => Err(e),
            }
        } else if tag == 6 {
            match dec_u64(b, j) {
                Ok((id, k)) => Ok((StepView::CancelManeuver(id), k)),
                Err(e) => Err(e),
            }
        } else {
            Err(DecodeError::UnknownStep)
        },
        Err(e) => Err(e),
    }
}

pub open spec fn dec_steps(b: Seq<u8>, i: int, n: int) -> Result<(Seq<StepView>, int), DecodeError>
    decreases n,
{
    if n <= 0 {
        Ok((Seq::empty(), i))
    } else {
        match dec_step(b, i) {
            Ok((s, j)) => match dec_steps(b, j, n - 1) {
                Ok((rest, k)) => Ok((seq![s] + rest, k)),
                Err(e) => Err(e),
            },
            Err(e) => Err(e),
        }
    }
}

pub open spec fn spec_decode_action(b: Seq<u8>) -> Result<ActionView, DecodeError> {
    match dec_u8(b, 0) {
        Ok((tag, i0)) => if tag == TAG_ACTION {
            match dec_u64(b, i0) {
                Ok((id, i1)) => match dec_u16(b, i1) {
                    Ok((n, i2)) => match dec_steps(b, i2, n as int) {
                        Ok((steps, i3)) => if i3 == b.len() {
                            Ok(ActionView { id, steps })
                        } else {
                            Err(DecodeError::TrailingData)
                        },
                        Err(e) => Err(e),
                    },
                    Err(e) => Err(e),
                },
                Err(e) => Err(e),
            }
        } else {
            Err(DecodeError::UnknownMessage)
        },
        Err(e) => Err(e),
    }
}

pub open spec fn dec_body(b: Seq<u8>, i: int) -> Result<(Body, int), DecodeError> {
    match dec_i64(b, i) {
        Ok((px, i1)) => match dec_i64(b, i1) {
            Ok((py, i2)) => match dec_i64(b, i2) {
                Ok((vx, i3)) => match dec_i64(b, i3) {
                    Ok((vy, i4)) => match dec_i64(b, i4) {
                        Ok((fx, i5)) => match dec_i64(b, i5) {
                            Ok((fy, i6)) => match dec_i64(b, i6) {
                                Ok((mass, i7)) => Ok((
                                    Body {
                                        position: Vec2 { x: px, y: py },
                                        velocity: Vec2 { x: vx, y: vy },
                                        force: Vec2 { x: fx, y: fy },
                                        mass,
                                    },
                                    i7,
                                )),
                                Err(e) => Err(e),
                            },
                            Err(e) => Err(e),
                        },
                        Err(e) => Err(e),
                    },
                    Err(e) => Err(e),
                },
                Err(e) => Err(e),
            },
            Err(e) => Err(e),
        },
        Err(e) => Err(e),
    }
}

pub open spec fn dec_percept(b: Seq<u8>, i: int) -> Result<(PerceptView, int), DecodeError> {
    match dec_u8(b, i) {
        Ok((tag, j)) => if tag == 1 {
            match dec_u64(b, j) {
                Ok((sender, k)) => match dec_text(b, k) {
                    Ok((t, m)) => Ok((PerceptView::Broadcast(sender, t), m)),
                    Err(e) => Err(e),
                },
                Err(e) => Err(e),
            }
        } else if tag == 2 {
            match dec_u64(b, j) {
                Ok((id, k)) => match dec_body(b, k) {
                    Ok((body, m)) => Ok((PerceptView::Entity(id, body), m)),
                    Err(e) => Err(e),
                },
                Err(e) => Err(e),
            }
        } else {
            Err(DecodeError::UnknownPercept)
        },
        Err(e) => Err(e),
    }
}

pub open spec fn dec_percepts(b: Seq<u8>, i: int, n: int) -> Result<
    (Seq<PerceptView>, int),
    DecodeError,
>
    decreases n,
{
    if n <= 0 {
        Ok((Seq::empty(), i))
    } else {
        match dec_percept(b, i) {
            Ok((p, j)) => match dec_percepts(b, j, n - 1) {
                Ok((rest, k)) => Ok((seq![p] + rest, k)),
                Err(e) => Err(e),
            },
            Err(e) => Err(e),
        }
    }
}

pub open spec fn dec_header(b: Seq<u8>, i: int) -> Result<(PerceptionHeader, int), DecodeError> {
    match dec_u8(b, i) {
        Ok((tag, i0)) => if tag == TAG_PERCEPTION {
            match dec_u64(b, i0) {
                Ok((confirm, i1)) => match dec_u8(b, i1) {
                    Ok((has_id, i2)) => if has_id == 0 {
                        Ok((PerceptionHeader { confirm_action: confirm, self_id: None }, i2))
                    } else if has_id == 1 {
                        match dec_u64(b, i2) {
                            Ok((id, i3)) => Ok((
                                PerceptionHeader { confirm_action: confirm, self_id: Some(id) },
                                i3,
                            )),
                            Err(e) => Err(e),
                        }
                    } else {
                        Err(DecodeError::InvalidNumber)
                    },
                    Err(e) => Err(e),
                },
                Err(e) => Err(e),
            }
        } else {
            Err(DecodeError::UnknownMessage)
        },
        Err(e) => Err(e),
    }
}

pub open spec fn spec_decode_perception(b: Seq<u8>) -> Result<PerceptionView, DecodeError> {
    match dec_header(b, 0) {
        Ok((header, i1)) => match dec_u16(b, i1) {
            Ok((n, i2)) => match dec_percepts(b, i2, n as int) {
                Ok((percepts, i3)) => if i3 == b.len() {
                    Ok(PerceptionView { header, percepts })
                } else {
                    Err(DecodeError::TrailingData)
                },
                Err(e) => Err(e),
            },
            Err(e) => Err(e),
        },
        Err(e) => Err(e),
    }
}

// --- list encodings grow one part at a time ---------------------------------

pub proof fn lemma_parts_bytes_push<T>(ss: Seq<T>, s: T, one: spec_fn(T) -> Seq<u8>)
    ensures
        parts_bytes(ss.push(s), one) == parts_bytes(ss, one) + one(s),
    decreases ss.len(),
{
    if ss.len() == 0 {
        assert(ss.push(s)[0] == s);
        assert(ss.push(s).drop_first() =~= Seq::<T>::empty());
        assert(parts_bytes(Seq::<T>::empty(), one) == Seq::<u8>::empty());
        assert(parts_bytes(ss.push(s), one) == one(s) + parts_bytes(ss.push(s).drop_first(), one));
        assert(parts_bytes(ss, one) == Seq::<u8>::empty());
        assert(one(s) + Seq::<u8>::empty() =~= Seq::<u8>::empty() + one(s));
    } else {
        assert(ss.push(s).len() != 0);
        assert(parts_bytes(ss.push(s), one) == one(ss.push(s)[0]) + parts_bytes(
            ss.push(s).drop_first(),
            one,
        ));
        assert(ss.push(s)[0] == ss[0]);
        assert(ss.push(s).drop_first() =~= ss.drop_first().push(s));
        lemma_parts_bytes_push(ss.drop_first(), s, one);
        assert(parts_bytes(ss.push(s), one) == one(ss[0]) + (parts_bytes(ss.drop_first(), one)
            + one(s)));
        assert(one(ss[0]) + (parts_bytes(ss.drop_first(), one) + one(s)) =~= (one(ss[0])
            + parts_bytes(ss.drop_first(), one)) + one(s));
    }
}

/// Every part takes at least one byte, so an encoded list is at least as long
/// as the list.
pub proof fn lemma_parts_bytes_min_len<T>(ss: Seq<T>, one: spec_fn(T) -> Seq<u8>)
    requires
        forall|x: T| (#[trigger] one(x)).len() >= 1,
    ensures
        parts_bytes(ss, one).len() >= ss.len(),
    decreases ss.len(),
{
    if ss.len() > 0 {
        lemma_parts_bytes_min_len(ss.drop_first(), one);
    }
}

// --- round-trip lemmas ------------------------------------------------------

/// Splitting a laid-down concatenation: where `s1 + s2` was written at `i`,
/// `s1` lies at `i` and `s2` right after it.
pub proof fn lemma_split(b: Seq<u8>, i: int, s1: Seq<u8>, s2: Seq<u8>)
    requires
        0 <= i,
        i + s1.len() + s2.len() <= b.len(),
        b.subrange(i, i + s1.len() + s2.len()) == s1 + s2,
    ensures
        b.subrange(i, i + s1.len()) =~= s1,
        b.subrange(i + s1.len(), i + s1.len() + s2.len()) =~= s2,
{
    let whole = b.subrange(i, i + s1.len() + s2.len());
    assert forall|k: int| 0 <= k < s1.len() implies b.subrange(i, i + s1.len())[k] == s1[k] by {
        assert(whole[k] == (s1 + s2)[k]);
    }
    assert forall|k: int| 0 <= k < s2.len() implies b.subrange(
        i + s1.len(),
        i + s1.len() + s2.len(),
    )[k] == s2[k] by {
        assert(whole[s1.len() + k] == (s1 + s2)[s1.len() + k]);
    }
}

#[verifier::spinoff_prover]
#[verifier::rlimit(100)]
pub proof fn lemma_dec_maneuver(b: Seq<u8>, i: int, m: ManeuverData)
    requires
        0 <= i,
        i + 43 <= b.len(),
        b.subrange(i, i + 43) =~= maneuver_bytes(m),
    ensures
        dec_maneuver(b, i) == Ok::<_, DecodeError>((m, i + 43)),
{
    let rest1 = u64_le(m.duration_ms) + i64_sm(m.direction.x) + i64_sm(m.direction.y) + i64_sm(
        m.thrust,
    );
    assert(maneuver_bytes(m) =~= u64_le(m.start_ms) + rest1);
    lemma_split(b, i, u64_le(m.start_ms), rest1);
    lemma_dec_u64(b, i, m.start_ms);
    let rest2 = i64_sm(m.direction.x) + i64_sm(m.direction.y) + i64_sm(m.thrust);
    assert(rest1 =~= u64_le(m.duration_ms) + rest2);
    lemma_split(b, i + 8, u64_le(m.duration_ms), rest2);
    lemma_dec_u64(b, i + 8, m.duration_ms);
    let rest3 = i64_sm(m.direction.y) + i64_sm(m.thrust);
    assert(rest2 =~= i64_sm(m.direction.x) + rest3);
    lemma_split(b, i + 16, i64_sm(m.direction.x), rest3);
    lemma_dec_i64(b, i + 16, m.direction.x);
    lemma_split(b, i + 25, i64_sm(m.direction.y), i64_sm(m.thrust));
    lemma_dec_i64(b, i + 25, m.direction.y);
    lemma_dec_i64(b, i + 34, m.thrust);
}

#[verifier::spinoff_prover]
#[verifier::rlimit(100)]
pub proof fn lemma_dec_step(b: Seq<u8>, i: int, s: StepView)
    requires
        0 <= i,
        step_wf(s),
        i + step_bytes(s).len() <= b.len(),
        b.subrange(i, i + step_bytes(s).len()) =~= step_bytes(s),
    ensures
        dec_step(b, i) == Ok::<_, DecodeError>((s, i + step_bytes(s).len())),
{
    let e = step_bytes(s);
    assert(b[i] == b.subrange(i, i + e.len())[0]);
    match s {
        StepView::Login => {
            assert(b[i] == 1u8);
        },
        StepView::Heartbeat => {
            assert(b[i] == 2u8);
        },
        StepView::Broadcast(t) => {
            assert(e =~= seq![3u8] + text_bytes(t));
            lemma_split(b, i, seq![3u8], text_bytes(t));
            assert(b[i] == 3u8);
            lemma_dec_text(b, i + 1, t);
        },
        StepView::StopBroadcast => {
            assert(b[i] == 4u8);
        },
        StepView::SetManeuver(m) => {
            assert(e =~= seq![5u8] + maneuver_bytes(m));
            lemma_split(b, i, seq![5u8], maneuver_bytes(m));
            assert(b[i] == 5u8);
            lemma_dec_maneuver(b, i + 1, m);
        },
        StepView::CancelManeuver(id) => {
            assert(e =~= seq![6u8] + u64_le(id));
            lemma_split(b, i, seq![6u8], u64_le(id));
            assert(b[i] == 6u8);
            lemma_dec_u64(b, i + 1, id);
        },
    }
}

#[verifier::spinoff_prover]
#[verifier::rlimit(100)]
pub proof fn lemma_dec_steps(b: Seq<u8>, i: int, ss: Seq<StepView>)
    requires
        0 <= i,
        forall|k: int| 0 <= k < ss.len() ==> step_wf(#[trigger] ss[k]),
        i + steps_bytes(ss).len() <= b.len(),
        b.subrange(i, i + steps_bytes(ss).len()) =~= steps_bytes(ss),
    ensures
        dec_steps(b, i, ss.len() as int) == Ok::<_, DecodeError>((ss, i + steps_bytes(ss).len())),
    decreases ss.len(),
{
    if ss.len() == 0 {
        assert(steps_bytes(ss).len() == 0);
        assert(dec_steps(b, i, 0) == Ok::<_, DecodeError>((Seq::<StepView>::empty(), i)));
        assert(ss =~= Seq::<StepView>::empty());
    } else {
        let first = step_bytes(ss[0]);
        let rest = steps_bytes(ss.drop_first());
        assert(steps_bytes(ss) == first + rest);
        lemma_split(b, i, first, rest);
        lemma_dec_step(b, i, ss[0]);
        assert(forall|k: int|
            0 <= k < ss.drop_first().len() ==> step_wf(#[trigger] ss.drop_first()[k]));
        lemma_dec_steps(b, i + first.len(), ss.drop_first());
        assert(seq![ss[0]] + ss.drop_first() =~= ss);
    }
}

/// Law: decoding an encoded action yields the action back, for every
/// representable action.
#[verifier::spinoff_prover]
#[verifier::rlimit(100)]
pub proof fn lemma_action_round_trip(a: ActionView)
    requires
        action_view_wf(a),
    ensures
        spec_decode_action(action_bytes(a)) == Ok::<_, DecodeError>(a),
{
    let b = action_bytes(a);
    let n = a.steps.len() as u16;
    let pre = seq![TAG_ACTION] + u64_le(a.id) + u16_le(n);
    assert(b =~= pre + steps_bytes(a.steps));
    assert(b.subrange(0, b.len() as int) =~= b);
    lemma_split(b, 0, pre, steps_bytes(a.steps));
    assert(pre.subrange(0, pre.len() as int) =~= pre);
    lemma_split(b, 0, seq![TAG_ACTION] + u64_le(a.id), u16_le(n));
    assert(b.subrange(0, 9) =~= (seq![TAG_ACTION] + u64_le(a.id)).subrange(0, 9));
    lemma_split(b, 0, seq![TAG_ACTION], u64_le(a.id));
    assert(b[0] == TAG_ACTION);
    lemma_dec_u64(b, 1, a.id);
    lemma_dec_u16(b, 9, n);
    lemma_dec_steps(b, 11, a.steps);
}

#[verifier::spinoff_prover]
#[verifier::rlimit(100)]
pub proof fn lemma_dec_body(b: Seq<u8>, i: int, body: Body)
    requires
        0 <= i,
        i + 63 <= b.len(),
        b.subrange(i, i + 63) =~= body_bytes(body),
    ensures
        dec_body(b, i) == Ok::<_, DecodeError>((body, i + 63)),
{
    let f1 = i64_sm(body.position.x);
    let f2 = i64_sm(body.position.y);
    let f3 = i64_sm(body.velocity.x);
    let f4 = i64_sm(body.velocity.y);
    let f5 = i64_sm(body.force.x);
    let f6 = i64_sm(body.force.y);
    let f7 = i64_sm(body.mass);
    assert(body_bytes(body) =~= f1 + (f2 + f3 + f4 + f5 + f6 + f7));
    lemma_split(b, i, f1, f2 + f3 + f4 + f5 + f6 + f7);
    lemma_dec_i64(b, i, body.position.x);
    assert(f2 + f3 + f4 + f5 + f6 + f7 =~= f2 + (f3 + f4 + f5 + f6 + f7));
    lemma_split(b, i + 9, f2, f3 + f4 + f5 + f6 + f7);
    lemma_dec_i64(b, i + 9, body.position.y);
    assert(f3 + f4 + f5 + f6 + f7 =~= f3 + (f4 + f5 + f6 + f7));
    lemma_split(b, i + 18, f3, f4 + f5 + f6 + f7);
    lemma_dec_i64(b, i + 18, body.velocity.x);
    assert(f4 + f5 + f6 + f7 =~= f4 + (f5 + f6 + f7));
    lemma_split(b, i + 27, f4, f5 + f6 + f7);
    lemma_dec_i64(b, i + 27, body.velocity.y);
    assert(f5 + f6 + f7 =~= f5 + (f6 + f7));
    lemma_split(b, i + 36, f5, f6 + f7);
    lemma_dec_i64(b, i + 36, body.force.x);
    lemma_split(b, i + 45, f6, f7);
    lemma_dec_i64(b, i + 45, body.force.y);
    lemma_dec_i64(b, i + 54, body.mass);
}

#[verifier::spinoff_prover]
#[verifier::rlimit(100)]
pub proof fn lemma_dec_percept(b: Seq<u8>, i: int, p: PerceptView)
    requires
        0 <= i,
        percept_wf(p),
        i + percept_bytes(p).len() <= b.len(),
        b.subrange(i, i + percept_bytes(p).len()) =~= percept_bytes(p),
    ensures
        dec_percept(b, i) == Ok::<_, DecodeError>((p, i + percept_bytes(p).len())),
{
    let e = percept_bytes(p);
    assert(b[i] == b.subrange(i, i + e.len())[0]);
    match p {
        PerceptView::Broadcast(sender, t) => {
            assert(e =~= seq![1u8] + (u64_le(sender) + text_bytes(t)));
            lemma_split(b, i, seq![1u8], u64_le(sender) + text_bytes(t));
            assert(b[i] == 1u8);
            lemma_split(b, i + 1, u64_le(sender), text_bytes(t));
            lemma_dec_u64(b, i + 1, sender);
            lemma_dec_text(b, i + 9, t);
        },
        PerceptView::Entity(id, body) => {
            assert(e =~= seq![2u8] + (u64_le(id) + body_bytes(body)));
            lemma_split(b, i, seq![2u8], u64_le(id) + body_bytes(body));
            assert(b[i] == 2u8);
            lemma_split(b, i + 1, u64_le(id), body_bytes(body));
            lemma_dec_u64(b, i + 1, id);
            lemma_dec_body(b, i + 9, body);
        },
    }
}

#[verifier::spinoff_prover]
#[verifier::rlimit(100)]
pub proof fn lemma_dec_percepts(b: Seq<u8>, i: int, ps: Seq<PerceptView>)
    requires
        0 <= i,
        forall|k: int| 0 <= k < ps.len() ==> percept_wf(#[trigger] ps[k]),
        i + percepts_bytes(ps).len() <= b.len(),
        b.subrange(i, i + percepts_bytes(ps).len()) =~= percepts_bytes(ps),
    ensures
        dec_percepts(b, i, ps.len() as int) == Ok::<_, DecodeError>(
            (ps, i + percepts_bytes(ps).len()),
        ),
    decreases ps.len(),
{
    if ps.len() == 0 {
        assert(percepts_bytes(ps).len() == 0);
        assert(ps =~= Seq::<PerceptView>::empty());
    } else {
        let first = percept_bytes(ps[0]);
        let rest = percepts_bytes(ps.drop_first());
        assert(percepts_bytes(ps) == first + rest);
        lemma_split(b, i, first, rest);
        lemma_dec_percept(b, i, ps[0]);
        assert(forall|k: int|
            0 <= k < ps.drop_first().len() ==> percept_wf(#[trigger] ps.drop_first()[k]));
        lemma_dec_percepts(b, i + first.len(), ps.drop_first());
        assert(seq![ps[0]] + ps.drop_first() =~= ps);
    }
}

#[verifier::spinoff_prover]
#[verifier::rlimit(100)]
pub proof fn lemma_dec_header(b: Seq<u8>, i: int, h: PerceptionHeader)
    requires
        0 <= i,
        i + header_bytes(h).len() <= b.len(),
        b.subrange(i, i + header_bytes(h).len()) =~= header_bytes(h),
    ensures
        dec_header(b, i) == Ok::<_, DecodeError>((h, i + header_bytes(h).len())),
{
    let e = header_bytes(h);
    assert(b[i] == b.subrange(i, i + e.len())[0]);
    match h.self_id {
        Option::None => {
            assert(e =~= seq![TAG_PERCEPTION] + (u64_le(h.confirm_action) + seq![0u8]));
            lemma_split(b, i, seq![TAG_PERCEPTION], u64_le(h.confirm_action) + seq![0u8]);
            assert(b[i] == TAG_PERCEPTION);
            lemma_split(b, i + 1, u64_le(h.confirm_action), seq![0u8]);
            lemma_dec_u64(b, i + 1, h.confirm_action);
            assert(b[i + 9] == b.subrange(i + 9, i + 10)[0]);
        },
        Option::Some(id) => {
            assert(e =~= seq![TAG_PERCEPTION] + (u64_le(h.confirm_action) + (seq![1u8] + u64_le(
                id,
            ))));
            lemma_split(
                b,
                i,
                seq![TAG_PERCEPTION],
                u64_le(h.confirm_action) + (seq![1u8] + u64_le(id)),
            );
            assert(b[i] == TAG_PERCEPTION);
            lemma_split(b, i + 1, u64_le(h.confirm_action), seq![1u8] + u64_le(id));
            lemma_dec_u64(b, i + 1, h.confirm_action);
            lemma_split(b, i + 9, seq![1u8], u64_le(id));
            assert(b[i + 9] == b.subrange(i + 9, i + 10)[0]);
            lemma_dec_u64(b, i + 10, id);
        },
    }
}

// --- exec encoding and decoding ---------------------------------------------

/// Why a message could not be encoded.
#[derive(Clone, Copy, Debug, PartialEq, Eq, Structural)]
pub enum EncodeError {
    /// The encoded message would exceed `MAX_PACKET_SIZE`.
    PacketTooLarge,
}

/// Reads the five fields of a maneuver.
fn read_maneuver(b: &[u8], i: usize) -> (r: Result<(ManeuverData, usize), DecodeError>)
    ensures
        match dec_maneuver(b@, i as int) {
            Ok((m, j)) => r matches Ok(p) && p.0 == m && p.1 as int == j,
            Err(e) => r matches Err(e2) && e2 == e,
        },
{
    proof {
        assert(b.len() == b@.len());
    }
    let (start_ms, i1) = match take_u64(b, i) {
        Ok(p) => p,
        Err(e) => { return Err(e) },
    };
    let (duration_ms, i2) = match take_u64(b, i1) {
        Ok(p) => p,
        Err(e) => { return Err(e) },
    };
    let (dx, i3) = match take_i64(b, i2) {
        Ok(p) => p,
        Err(e) => { return Err(e) },
    };
    let (dy, i4) = match take_i64(b, i3) {
        Ok(p) => p,
        Err(e) => { return Err(e) },
    };
    let (thrust, i5) = match take_i64(b, i4) {
        Ok(p) => p,
        Err(e) => { return Err(e) },
    };
    Ok((ManeuverData { start_ms, duration_ms, direction: Vec2 { x: dx, y: dy }, thrust }, i5))
}

/// Reads the seven fields of a body.
#[verifier::spinoff_prover]
#[verifier::rlimit(100)]
fn read_body(b: &[u8], i: usize) -> (r: Result<(Body, usize), DecodeError>)
    ensures
        match dec_body(b@, i as int) {
            Ok((body, j)) => r matches Ok(p) && p.0 == body && p.1 as int == j,
            Err(e) => r matches Err(e2) && e2 == e,
        },
{
    proof {
        assert(b.len() == b@.len());
    }
    let (px, i1) = match take_i64(b, i) {
        Ok(p) => p,
        Err(e) => { return Err(e) },
    };
    let (py, i2) = match take_i64(b, i1) {
        Ok(p) => p,
        Err(e) => { return Err(e) },
    };
    let (vx, i3) = match take_i64(b, i2) {
        Ok(p) => p,
        Err(e) => { return Err(e) },
    };
    let (vy, i4) = match take_i64(b, i3) {
        Ok(p) => p,
        Err(e) => { return Err(e) },
    };
    let (fx, i5) = match take_i64(b, i4) {
        Ok(p) => p,
        Err(e) => { return Err(e) },
    };
    let (fy, i6) = match take_i64(b, i5) {
        Ok(p) => p,
        Err(e) => { return Err(e) },
    };
    let (mass, i7) = match take_i64(b, i6) {
        Ok(p) => p,
        Err(e) => { return Err(e) },
    };
    Ok((
        Body {
            position: Vec2 { x: px, y: py },
            velocity: Vec2 { x: vx, y: vy },
            force: Vec2 { x: fx, y: fy },
            mass,
        },
        i7,
    ))
}

/// Whether the text is short enough for a length-prefixed encoding, decided
/// at run time.
pub fn text_fits(t: &str) -> (r: bool)
    ensures
        r == text_wf(t@),
{
    let bytes = t.as_bytes_vec();
    bytes.len() <= u16::MAX as usize
}

/// One part of a message: it knows its own byte encoding, writes itself to a
/// buffer, and reads itself back from one.
pub trait MessagePart: Sized + View {
    /// Whether the part is representable on the wire.
    spec fn wf(&self) -> bool;

    /// The part's byte encoding.
    spec fn encoded(&self) -> Seq<u8>;

    /// What decoding this kind of part at an index of a buffer yields.
    spec fn decoded_at(b: Seq<u8>, i: int) -> Result<(Self::V, int), DecodeError>;

    /// Whether the part is representable, decided at run time.
    fn is_wf(&self) -> (r: bool)
        ensures
            r == self.wf(),
    ;

    /// Appends the part's encoding to the buffer.
    fn write_to(&self, out: &mut Vec<u8>)
        requires
            self.wf(),
        ensures
            final(out)@ == old(out)@ + self.encoded(),
    ;

    /// Reads one part at an index, as the spec-level decoder does.
    fn read(b: &[u8], i: usize) -> (r: Result<(Self, usize), DecodeError>)
        ensures
            match Self::decoded_at(b@, i as int) {
                Ok((v, j)) => r matches Ok(p) && p.0@ == v && p.1 as int == j,
                Err(e) => r matches Err(e2) && e2 == e,
            },
    ;
}

impl MessagePart for Step {
    open spec fn wf(&self) -> bool {
        step_wf(self@)
    }

    open spec fn encoded(&self) -> Seq<u8> {
        step_bytes(self@)
    }

    open spec fn decoded_at(b: Seq<u8>, i: int) -> Result<(StepView, int), DecodeError> {
        dec_step(b, i)
    }

    fn is_wf(&self) -> (r: bool) {
        match self {
            Step::Broadcast(t) => text_fits(t.as_str()),
            _ => true,
        }
    }

    #[verifier::spinoff_prover]
    #[verifier::rlimit(100)]
    fn write_to(&self, out: &mut Vec<u8>) {
        match self {
            Step::Login => out.push(1u8),
            Step::Heartbeat => out.push(2u8),
            Step::Broadcast(t) => {
                out.push(3u8);
                let ok = put_text(out, t.as_str());
                assert(ok);
            },
            Step::StopBroadcast => out.push(4u8),
            Step::SetManeuver(m) => {
                out.push(5u8);
                put_u64(out, m.start_ms);
                put_u64(out, m.duration_ms);
                put_i64(out, m.direction.x);
                put_i64(out, m.direction.y);
                put_i64(out, m.thrust);
            },
            Step::CancelManeuver(id) => {
                out.push(6u8);
                put_u64(out, *id);
            },
        }
        assert(out@ =~= old(out)@ + step_bytes(self@));
    }

    fn read(b: &[u8], i: usize) -> (r: Result<(Self, usize), DecodeError>) {
        proof {
            assert(b.len() == b@.len());
        }
        let (tag, j) = match take_u8(b, i) {
            Ok(p) => p,
            Err(e) => { return Err(e) },
        };
        if tag == 1 {
            Ok((Step::Login, j))
        } else if tag == 2 {
            Ok((Step::Heartbeat, j))
        } else if tag == 3 {
            match take_text(b, j) {
                Ok((t, k)) => Ok((Step::Broadcast(t), k)),
                Err(e) => Err(e),
            }
        } else if tag == 4 {
            Ok((Step::StopBroadcast, j))
        } else if tag == 5 {
            match read_maneuver(b, j) {
                Ok((m, k)) => Ok((Step::SetManeuver(m), k)),
                Err(e) => Err(e),
            }
        } else if tag == 6 {
            match take_u64(b, j) {
                Ok((id, k)) => Ok((Step::CancelManeuver(id), k)),
                Err(e) => Err(e),
            }
        } else {
            Err(DecodeError::UnknownStep)
        }
    }
}

impl MessagePart for Percept {
    open spec fn wf(&self) -> bool {
        percept_wf(self@)
    }

    open spec fn encoded(&self) -> Seq<u8> {
        percept_bytes(self@)
    }

    open spec fn decoded_at(b: Seq<u8>, i: int) -> Result<(PerceptView, int), DecodeError> {
        dec_percept(b, i)
    }

    fn is_wf(&self) -> (r: bool) {
        match self {
            Percept::Broadcast(bc) => text_fits(bc.message.as_str()),
            _ => true,
        }
    }

    #[verifier::spinoff_prover]
    #[verifier::rlimit(100)]
    fn write_to(&self, out: &mut Vec<u8>) {
        match self {
            Percept::Broadcast(bc) => {
                out.push(1u8);
                put_u64(out, bc.sender);
                let ok = put_text(out, bc.message.as_str());
                assert(ok);
            },
            Percept::Entity(id, body) => {
                out.push(2u8);
                put_u64(out, *id);
                put_i64(out, body.position.x);
                put_i64(out, body.position.y);
                put_i64(out, body.velocity.x);
                put_i64(out, body.velocity.y);
                put_i64(out, body.force.x);
                put_i64(out, body.force.y);
                put_i64(out, body.mass);
            },
        }
        assert(out@ =~= old(out)@ + percept_bytes(self@));
    }

    #[verifier::spinoff_prover]
    #[verifier::rlimit(100)]
    fn read(b: &[u8], i: usize) -> (r: Result<(Self, usize), DecodeError>) {
        proof {
            assert(b.len() == b@.len());
        }
        let (tag, j) = match take_u8(b, i) {
            Ok(p) => p,
            Err(e) => { return Err(e) },
        };
        if tag == 1 {
            let (sender, k) = match take_u64(b, j) {
                Ok(p) => p,
                Err(e) => { return Err(e) },
            };
            match take_text(b, k) {
                Ok((t, m)) => Ok((Percept::Broadcast(Broadcast { sender, message: t }), m)),
                Err(e) => Err(e),
            }
        } else if tag == 2 {
            let (id, k) = match take_u64(b, j) {
                Ok(p) => p,
                Err(e) => { return Err(e) },
            };
            match read_body(b, k) {
                Ok((body, m)) => Ok((Percept::Entity(id, body), m)),
                Err(e) => Err(e),
            }
        } else {
            Err(DecodeError::UnknownPercept)
        }
    }
}

/// Whether an action is representable and its encoding fits in one packet.
pub open spec fn action_encodable(a: ActionView) -> bool {
    action_view_wf(a) && action_bytes(a).len() <= MAX_PACKET_SIZE
}

/// Encodes an action; fails exactly when the result would not fit in one
/// packet.
pub fn encode_action(sequence: SeqNum, steps: &Vec<Step>) -> (r: Result<Vec<u8>, EncodeError>)
    ensures
        r matches Ok(v) ==> action_encodable(ActionView { id: sequence, steps: views(steps@) })
            && v@ == action_bytes(ActionView { id: sequence, steps: views(steps@) }),
        r is Err <==> !action_encodable(ActionView { id: sequence, steps: views(steps@) }),
{
    let ghost av = ActionView { id: sequence, steps: views(steps@) };
    if steps.len() > u16::MAX as usize {
        proof {
            let one = |s: StepView| step_bytes(s);
            assert(forall|x: StepView| (#[trigger] one(x)).len() >= 1);
            lemma_parts_bytes_min_len(av.steps, one);
        }
        return Err(EncodeError::PacketTooLarge);
    }
    let mut k: usize = 0;
    while k < steps.len()
        invariant
            k <= steps.len(),
            steps.len() <= u16::MAX,
            av == (ActionView { id: sequence, steps: views(steps@) }),
            forall|m: int| 0 <= m < k ==> step_wf(#[trigger] views(steps@)[m]),
        decreases steps.len() - k,
    {
        if !steps[k].is_wf() {
            // An over-long broadcast text alone already overflows the packet.
            proof {
                let one = |s: StepView| step_bytes(s);
                assert(forall|x: StepView| (#[trigger] one(x)).len() >= 1);
                assert(!step_wf(av.steps[k as int]));
            }
            return Err(EncodeError::PacketTooLarge);
        }
        proof {
            assert(views(steps@)[k as int] == steps@[k as int]@);
        }
        k += 1;
    }
    let mut out: Vec<u8> = Vec::new();
    out.push(TAG_ACTION);
    put_u64(&mut out, sequence);
    put_u16(&mut out, steps.len() as u16);
    assert(out@ =~= seq![TAG_ACTION] + u64_le(sequence) + u16_le(steps.len() as u16));
    let ghost pre = out@;
    let mut k: usize = 0;
    while k < steps.len()
        invariant
            k <= steps.len(),
            steps.len() <= u16::MAX,
            av == (ActionView { id: sequence, steps: views(steps@) }),
            forall|m: int| 0 <= m < steps.len() ==> step_wf(#[trigger] views(steps@)[m]),
            out@ == pre + steps_bytes(views(steps@).subrange(0, k as int)),
        decreases steps.len() - k,
    {
        proof {
            assert(views(steps@)[k as int] == steps@[k as int]@);
            assert(steps[k as int].wf());
            let done = views(steps@).subrange(0, k as int);
            assert(done.push(steps@[k as int]@) =~= views(steps@).subrange(0, k as int + 1));
            lemma_parts_bytes_push(done, steps@[k as int]@, |s: StepView| step_bytes(s));
        }
        let step = &steps[k];
        step.write_to(&mut out);
        k += 1;
    }
    assert(views(steps@).subrange(0, steps.len() as int) =~= views(steps@));
    assert(out@ == action_bytes(av));
    if out.len() > MAX_PACKET_SIZE {
        return Err(EncodeError::PacketTooLarge);
    }
    Ok(out)
}

/// Reads `n` consecutive steps.
fn read_steps(b: &[u8], i: usize, n: u16) -> (r: Result<(Vec<Step>, usize), DecodeError>)
    ensures
        match dec_steps(b@, i as int, n as int) {
            Ok((ss, j)) => r matches Ok(p) && views(p.0@) == ss && p.1 as int == j,
            Err(e) => r matches Err(e2) && e2 == e,
        },
    decreases n,
{
    if n == 0 {
        let v: Vec<Step> = Vec::new();
        assert(views(v@) =~= Seq::<StepView>::empty());
        Ok((v, i))
    } else {
        let (s, j) = match Step::read(b, i) {
            Ok(p) => p,
            Err(e) => { return Err(e) },
        };
        let (mut rest, k) = match read_steps(b, j, n - 1) {
            Ok(p) => p,
            Err(e) => { return Err(e) },
        };
        let ghost tail = rest@;
        rest.insert(0, s);
        assert(views(rest@) =~= seq![s@] + views(tail));
        Ok((rest, k))
    }
}

/// Decodes an action packet. Total: any input yields the action or a typed
/// error, exactly as the spec-level decoder says.
pub fn decode_action(b: &[u8]) -> (r: Result<Action, DecodeError>)
    ensures
        match spec_decode_action(b@) {
            Ok(av) => r matches Ok(a) && a@ == av,
            Err(e) => r matches Err(e2) && e2 == e,
        },
{
    proof {
        assert(b.len() == b@.len());
    }
    let (tag, i0) = match take_u8(b, 0) {
        Ok(p) => p,
        Err(e) => { return Err(e) },
    };
    if tag != TAG_ACTION {
        return Err(DecodeError::UnknownMessage);
    }
    let (id, i1) = match take_u64(b, i0) {
        Ok(p) => p,
        Err(e) => { return Err(e) },
    };
    let (n, i2) = match take_u16(b, i1) {
        Ok(p) => p,
        Err(e) => { return Err(e) },
    };
    let (steps, i3) = match read_steps(b, i2, n) {
        Ok(p) => p,
        Err(e) => { return Err(e) },
    };
    if i3 == b.len() {
        Ok(Action { id, steps })
    } else {
        Err(DecodeError::TrailingData)
    }
}

/// Whether a perception is representable and its encoding fits in one packet.
pub open spec fn perception_encodable(p: PerceptionView) -> bool {
    perception_view_wf(p) && perception_bytes(p).len() <= MAX_PACKET_SIZE
}

/// Reads `n` consecutive percepts.
fn read_percepts(b: &[u8], i: usize, n: u16) -> (r: Result<(Vec<Percept>, usize), DecodeError>)
    ensures
        match dec_percepts(b@, i as int, n as int) {
            Ok((ps, j)) => r matches Ok(p) && views(p.0@) == ps && p.1 as int == j,
            Err(e) => r matches Err(e2) && e2 == e,
        },
    decreases n,
{
    if n == 0 {
        let v: Vec<Percept> = Vec::new();
        assert(views(v@) =~= Seq::<PerceptView>::empty());
        Ok((v, i))
    } else {
        let (s, j) = match Percept::read(b, i) {
            Ok(p) => p,
            Err(e) => { return Err(e) },
        };
        let (mut rest, k) = match read_percepts(b, j, n - 1) {
            Ok(p) => p,
            Err(e) => { return Err(e) },
        };
        let ghost tail = rest@;
        rest.insert(0, s);
        assert(views(rest@) =~= seq![s@] + views(tail));
        Ok((rest, k))
    }
}

/// Decodes a perception packet, total as `decode_action` is.
pub fn decode_perception(b: &[u8]) -> (r: Result<Perception, DecodeError>)
    ensures
        match spec_decode_perception(b@) {
            Ok(pv) => r matches Ok(p) && p@ == pv,
            Err(e) => r matches Err(e2) && e2 == e,
        },
{
    proof {
        assert(b.len() == b@.len());
    }
    let (tag, h0) = match take_u8(b, 0) {
        Ok(p) => p,
        Err(e) => { return Err(e) },
    };
    if tag != TAG_PERCEPTION {
        return Err(DecodeError::UnknownMessage);
    }
    let (confirm, h1) = match take_u64(b, h0) {
        Ok(p) => p,
        Err(e) => { return Err(e) },
    };
    let (has_id, h2) = match take_u8(b, h1) {
        Ok(p) => p,
        Err(e) => { return Err(e) },
    };
    let (header, i1) = if has_id == 0 {
        (PerceptionHeader { confirm_action: confirm, self_id: None }, h2)
    } else if has_id == 1 {
        match take_u64(b, h2) {
            Ok((id, h3)) => (PerceptionHeader { confirm_action: confirm, self_id: Some(id) }, h3),
            Err(e) => { return Err(e) },
        }
    } else {
        return Err(DecodeError::InvalidNumber);
    };
    let (n, i2) = match take_u16(b, i1) {
        Ok(p) => p,
        Err(e) => { return Err(e) },
    };
    let (percepts, i3) = match read_percepts(b, i2, n) {
        Ok(p) => p,
        Err(e) => { return Err(e) },
    };
    if i3 == b.len() {
        Ok(Perception { header, percepts })
    } else {
        Err(DecodeError::TrailingData)
    }
}

/// Law: decoding an encoded perception yields the perception back, for every
/// representable perception.
#[verifier::spinoff_prover]
#[verifier::rlimit(100)]
pub proof fn lemma_perception_round_trip(p: PerceptionView)
    requires
        perception_view_wf(p),
    ensures
        spec_decode_perception(perception_bytes(p)) == Ok::<_, DecodeError>(p),
{
    let b = perception_bytes(p);
    let n = p.percepts.len() as u16;
    let hb = header_bytes(p.header);
    assert(b =~= hb + (u16_le(n) + percepts_bytes(p.percepts)));
    assert(b.subrange(0, b.len() as int) =~= b);
    lemma_split(b, 0, hb, u16_le(n) + percepts_bytes(p.percepts));
    lemma_dec_header(b, 0, p.header);
    lemma_split(b, hb.len() as int, u16_le(n), percepts_bytes(p.percepts));
    lemma_dec_u16(b, hb.len() as int, n);
    lemma_dec_percepts(b, hb.len() + 2int, p.percepts);
}

// --- packing percepts into size-bounded packets -----------------------------

/// Packs percepts into one outgoing perception, refusing any percept that
/// would push the packet past `MAX_PACKET_SIZE`.
pub struct PerceptionBuilder {
    message: Perception,
    size: usize,
}

impl PerceptionBuilder {
    /// The message under construction.
    pub closed spec fn spec_message(self) -> Perception {
        self.message
    }

    /// The running encoded size.
    pub closed spec fn spec_size(self) -> int {
        self.size as int
    }
}

impl View for PerceptionBuilder {
    type V = PerceptionView;

    open spec fn view(&self) -> PerceptionView {
        self.spec_message()@
    }
}

impl PerceptionBuilder {
    /// The builder's running size is the exact encoded size, it never exceeds
    /// the packet bound, and everything added so far is representable.
    pub open spec fn wf(self) -> bool {
        &&& self.spec_size() == perception_bytes(self@).len()
        &&& self.spec_size() <= MAX_PACKET_SIZE
        &&& self@.percepts.len() + 12 <= self.spec_size()
        &&& forall|k: int|
            0 <= k < self@.percepts.len() ==> percept_wf(#[trigger] self@.percepts[k])
    }

    /// Starts a message that carries this header and no percepts yet.
    pub fn begin(header: PerceptionHeader) -> (r: Self)
        ensures
            r.wf(),
            r@.header == header,
            r@.percepts == Seq::<PerceptView>::empty(),
    {
        let size: usize = match header.self_id {
            Option::Some(_) => 20,
            Option::None => 12,
        };
        let r = PerceptionBuilder {
            message: Perception { header, percepts: Vec::new() },
            size,
        };
        proof {
            assert(views(r.message.percepts@) =~= Seq::<PerceptView>::empty());
            assert(perception_bytes(r.message@).len() == size);
        }
        r
    }

    /// How long the message would be with this percept appended.
    pub open spec fn size_with(self, p: PerceptView) -> int {
        perception_bytes(
            PerceptionView { header: self@.header, percepts: self@.percepts.push(p) },
        ).len() as int
    }

    /// Appends one percept if it fits; on overflow returns false and leaves
    /// the message untouched, so the caller can flush and start a new message
    /// with the same header.
    pub fn add(&mut self, percept: Percept) -> (r: bool)
        requires
            old(self).wf(),
            percept.wf(),
        ensures
            final(self).wf(),
            r <==> old(self).size_with(percept@) <= MAX_PACKET_SIZE,
            r ==> final(self)@ == (PerceptionView {
                header: old(self)@.header,
                percepts: old(self)@.percepts.push(percept@),
            }),
            !r ==> final(self)@ == old(self)@,
    {
        let mut tmp: Vec<u8> = Vec::new();
        percept.write_to(&mut tmp);
        proof {
            lemma_parts_bytes_push(
                views(self.message.percepts@),
                percept@,
                |p: PerceptView| percept_bytes(p),
            );
            assert(views(self.message.percepts@).push(percept@) =~= views(
                self.message.percepts@.push(percept),
            ));
            assert(percept_bytes(percept@).len() >= 1);
        }
        if tmp.len() <= MAX_PACKET_SIZE - self.size {
            self.size = self.size + tmp.len();
            self.message.percepts.push(percept);
            true
        } else {
            false
        }
    }

    /// Finalizes the message into the caller-supplied buffer; the result never
    /// exceeds the packet bound.
    pub fn encode(&self, out: &mut Vec<u8>)
        requires
            self.wf(),
        ensures
            final(out)@ == perception_bytes(self@),
            final(out)@.len() <= MAX_PACKET_SIZE,
    {
        out.clear();
        out.push(TAG_PERCEPTION);
        put_u64(out, self.message.header.confirm_action);
        match self.message.header.self_id {
            Option::Some(id) => {
                out.push(1u8);
                put_u64(out, id);
            },
            Option::None => {
                out.push(0u8);
            },
        }
        assert(out@ =~= header_bytes(self@.header));
        let n = self.message.percepts.len();
        put_u16(out, n as u16);
        assert(out@ =~= header_bytes(self@.header) + u16_le(n as u16));
        let ghost pre = out@;
        let mut k: usize = 0;
        while k < n
            invariant
                k <= n,
                n == self.message.percepts.len(),
                self.wf(),
                pre == header_bytes(self@.header) + u16_le(n as u16),
                out@ == pre + percepts_bytes(views(self.message.percepts@).subrange(0, k as int)),
            decreases n - k,
        {
            proof {
                assert(views(self.message.percepts@)[k as int] == self.message.percepts@[k as int]@);
                let done = views(self.message.percepts@).subrange(0, k as int);
                assert(done.push(self.message.percepts@[k as int]@) =~= views(
                    self.message.percepts@,
                ).subrange(0, k as int + 1));
                lemma_parts_bytes_push(
                    done,
                    self.message.percepts@[k as int]@,
                    |p: PerceptView| percept_bytes(p),
                );
            }
            let p = &self.message.percepts[k];
            p.write_to(out);
            k += 1;
        }
        assert(views(self.message.percepts@).subrange(0, n as int) =~= views(
            self.message.percepts@,
        ));
        assert(out@ == perception_bytes(self@));
    }
}

/// The percepts that a run of packets carries, in order; a packet that does
/// not decode carries none.
pub open spec fn packets_percepts(bs: Seq<Seq<u8>>) -> Seq<PerceptView>
    decreases bs.len(),
{
    if bs.len() == 0 {
        Seq::empty()
    } else {
        (match spec_decode_perception(bs[0]) {
            Ok(pv) => pv.percepts,
            Err(_) => Seq::empty(),
        }) + packets_percepts(bs.drop_first())
    }
}

pub proof fn lemma_packets_percepts_push(bs: Seq<Seq<u8>>, b: Seq<u8>)
    ensures
        packets_percepts(bs.push(b)) == packets_percepts(bs) + (match spec_decode_perception(b) {
            Ok(pv) => pv.percepts,
            Err(_) => Seq::<PerceptView>::empty(),
        }),
    decreases bs.len(),
{
    let last = match spec_decode_perception(b) {
        Ok(pv) => pv.percepts,
        Err(_) => Seq::<PerceptView>::empty(),
    };
    if bs.len() == 0 {
        assert(bs.push(b)[0] == b);
        assert(bs.push(b).drop_first() =~= Seq::<Seq<u8>>::empty());
        assert(packets_percepts(Seq::<Seq<u8>>::empty()) == Seq::<PerceptView>::empty());
        assert(packets_percepts(bs.push(b)) == last + packets_percepts(bs.push(b).drop_first()));
        assert(last + Seq::<PerceptView>::empty() =~= Seq::<PerceptView>::empty() + last);
    } else {
        let first = match spec_decode_perception(bs[0]) {
            Ok(pv) => pv.percepts,
            Err(_) => Seq::<PerceptView>::empty(),
        };
        assert(bs.push(b)[0] == bs[0]);
        assert(bs.push(b).drop_first() =~= bs.drop_first().push(b));
        lemma_packets_percepts_push(bs.drop_first(), b);
        assert(packets_percepts(bs.push(b)) == first + (packets_percepts(bs.drop_first()) + last));
        assert(first + (packets_percepts(bs.drop_first()) + last) =~= (first + packets_percepts(
            bs.drop_first(),
        )) + last);
    }
}

/// Whether one percept fits in an otherwise empty packet with this header.
pub open spec fn percept_fits(p: PerceptView, h: PerceptionHeader) -> bool {
    perception_bytes(PerceptionView { header: h, percepts: seq![p] }).len() <= MAX_PACKET_SIZE
}

/// The most UTF-8 bytes a broadcast text may hold and still fit, as a percept,
/// in an otherwise empty packet under the larger header form.
pub const MAX_BROADCAST_BYTES: usize = 481;

/// Whether a broadcast text is short enough to be admitted into the world:
/// only such texts can always be packed for dissemination.
pub open spec fn sp_broadcast_admissible(t: Seq<char>) -> bool {
    vstd::utf8::encode_utf8(t).len() <= MAX_BROADCAST_BYTES
}

/// Decides broadcast admissibility at run time.
pub fn broadcast_admissible(t: &str) -> (r: bool)
    ensures
        r == sp_broadcast_admissible(t@),
{
    let bytes = t.as_bytes_vec();
    bytes.len() <= MAX_BROADCAST_BYTES
}

/// Law: an admissible broadcast text is representable on the wire, and its
/// percept fits an otherwise empty packet whatever the header carries.
pub proof fn lemma_admissible_broadcast_fits(
    sender: EntityId,
    t: Seq<char>,
    h: PerceptionHeader,
)
    requires
        sp_broadcast_admissible(t),
    ensures
        text_wf(t),
        percept_fits(PerceptView::Broadcast(sender, t), h),
{
    let p = PerceptView::Broadcast(sender, t);
    let ps = seq![p];
    assert(percepts_bytes(ps) == percept_bytes(p) + percepts_bytes(ps.drop_first()));
    assert(ps.drop_first().len() == 0);
    assert(percepts_bytes(ps.drop_first()) =~= Seq::<u8>::empty());
    assert(percept_bytes(p).len() == 11 + vstd::utf8::encode_utf8(t).len());
    assert(header_bytes(h).len() <= 18);
}

/// Law: dissemination packs the whole percept list, in order, into packets
/// that each fit the bound and carry the same header — nothing is dropped.
///
/// One packet is sent even when there is nothing to report, so the header's
/// confirmation still reaches the client.
#[verifier::spinoff_prover]
#[verifier::rlimit(100)]
pub fn build_perceptions(header: PerceptionHeader, percepts: &Vec<Percept>) -> (r: Vec<Vec<u8>>)
    requires
        forall|k: int| 0 <= k < percepts@.len() ==> (#[trigger] percepts@[k]).wf(),
        forall|k: int| 0 <= k < percepts@.len() ==> percept_fits(#[trigger] percepts@[k]@, header),
    ensures
        r@.len() >= 1,
        forall|k: int|
            0 <= k < r@.len() ==> (#[trigger] r@[k])@.len() <= MAX_PACKET_SIZE
                && (spec_decode_perception(r@[k]@) matches Ok(pv) && pv.header == header),
        packets_percepts(r@.map_values(|v: Vec<u8>| v@)) == views(percepts@),
{
    let mut out: Vec<Vec<u8>> = Vec::new();
    let mut builder = PerceptionBuilder::begin(header);
    let mut k: usize = 0;
    proof {
        assert(out@.map_values(|v: Vec<u8>| v@) =~= Seq::<Seq<u8>>::empty());
        assert(views(percepts@).subrange(0, 0) =~= Seq::<PerceptView>::empty());
    }
    while k < percepts.len()
        invariant
            k <= percepts.len(),
            builder.wf(),
            builder@.header == header,
            forall|m: int| 0 <= m < percepts@.len() ==> (#[trigger] percepts@[m]).wf(),
            forall|m: int|
                0 <= m < percepts@.len() ==> percept_fits(#[trigger] percepts@[m]@, header),
            forall|m: int|
                0 <= m < out@.len() ==> (#[trigger] out@[m])@.len() <= MAX_PACKET_SIZE
                    && (spec_decode_perception(out@[m]@) matches Ok(pv) && pv.header == header),
            packets_percepts(out@.map_values(|v: Vec<u8>| v@)) + builder@.percepts == views(
                percepts@,
            ).subrange(0, k as int),
        decreases percepts.len() - k,
    {
        proof {
            assert(views(percepts@)[k as int] == percepts@[k as int]@);
            assert(views(percepts@).subrange(0, k as int).push(percepts@[k as int]@) =~= views(
                percepts@,
            ).subrange(0, k as int + 1));
        }
        let p = percepts[k].clone();
        assert(p@ == percepts@[k as int]@);
        let added = builder.add(p);
        if !added {
            let mut buf: Vec<u8> = Vec::new();
            builder.encode(&mut buf);
            proof {
                lemma_perception_round_trip(builder@);
                lemma_packets_percepts_push(out@.map_values(|v: Vec<u8>| v@), buf@);
                assert(out@.push(buf).map_values(|v: Vec<u8>| v@) =~= out@.map_values(
                    |v: Vec<u8>| v@,
                ).push(buf@));
            }
            out.push(buf);
            builder = PerceptionBuilder::begin(header);
            let p2 = percepts[k].clone();
            assert(p2@ == percepts@[k as int]@);
            let added2 = builder.add(p2);
            proof {
                assert(Seq::<PerceptView>::empty().push(percepts@[k as int]@) =~= seq![
                    percepts@[k as int]@,
                ]);
            }
            assert(added2);
            assert(builder@.percepts =~= seq![percepts@[k as int]@]);
        }
        k += 1;
    }
    let mut buf: Vec<u8> = Vec::new();
    builder.encode(&mut buf);
    proof {
        lemma_perception_round_trip(builder@);
        lemma_packets_percepts_push(out@.map_values(|v: Vec<u8>| v@), buf@);
        assert(out@.push(buf).map_values(|v: Vec<u8>| v@) =~= out@.map_values(
            |v: Vec<u8>| v@,
        ).push(buf@));
        assert(views(percepts@).subrange(0, percepts@.len() as int) =~= views(percepts@));
    }
    out.push(buf);
    out
}

} // verus!
