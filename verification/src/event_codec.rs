//! The persisted form of a task event envelope: one human-readable ASCII
//! line holding the envelope's versions and timestamp, a one-byte event
//! discriminator, and the event's own fields, the title written as its raw
//! UTF-8 bytes at the very end. Encoding and decoding are exact inverses.

use vstd::prelude::*;
use vstd::utf8::{decode_utf8, encode_utf8, valid_utf8};

use crate::codec::{
    dec_digits, dec_int, dec_val, int_end, int_present, int_val, is_digit,
    lemma_dec_digits_are_digits, lemma_int_at, push_dec_i64, push_dec_u128, read_i64, read_u128,
    run_end, MINUS,
};
use crate::component::{AggregateID, DomainEventEnvelope, EnvelopeView};
use crate::es_task::{Cost, EventView, Priority, SequentialID, TaskDomainEvent};

verus! {

/// The byte that separates fields.
pub const SP: u8 = 32;

/// Event discriminators.
pub const TAG_CREATED: u8 = 67;

pub const TAG_CLOSED: u8 = 88;

pub const TAG_TITLE_EDITED: u8 = 84;

pub const TAG_PRIORITY_RESCORED: u8 = 80;

pub const TAG_COST_RESCORED: u8 = 79;

/// The encoded bytes of one event.
pub open spec fn spec_encode_event(e: EventView) -> Seq<u8> {
    match e {
        EventView::Created { aggregate_id, sequential_id } => seq![TAG_CREATED, SP] + dec_digits(
            aggregate_id as nat,
        ) + seq![SP] + dec_int(sequential_id),
        EventView::Closed => seq![TAG_CLOSED],
        EventView::TitleEdited { title } => seq![TAG_TITLE_EDITED, SP] + encode_utf8(title),
        EventView::PriorityRescored { priority } => seq![TAG_PRIORITY_RESCORED, SP] + dec_int(
            priority,
        ),
        EventView::CostRescored { cost } => seq![TAG_COST_RESCORED, SP] + dec_int(cost),
    }
}

/// The encoded bytes of one envelope.
pub open spec fn spec_encode_envelope(env: EnvelopeView<EventView>) -> Seq<u8> {
    dec_int(env.aggregate_version) + seq![SP] + dec_int(env.event_version) + seq![SP] + dec_int(
        env.occurred_on,
    ) + seq![SP] + spec_encode_event(env.event)
}

/// Valid UTF-8, kept opaque so that callers carry the fact without the
/// recursive definition behind it.
#[verifier::opaque]
pub open spec fn utf8_text(s: Seq<u8>) -> bool {
    valid_utf8(s)
}

/// A run of ASCII bytes is valid UTF-8.
pub proof fn lemma_ascii_valid_utf8(s: Seq<u8>)
    requires
        forall|i: int| 0 <= i < s.len() ==> #[trigger] s[i] < 128,
    ensures
        valid_utf8(s),
        utf8_text(s),
{
    assert(s.subrange(0, 0) =~= Seq::<u8>::empty());
    assert(vstd::utf8::partial_valid_utf8(s, 0));
    assert forall|i: int|
        0 <= 0 <= i < s.len() <= s.len() implies #[trigger] vstd::utf8::is_leading_byte_width_1(
        s[i],
    ) by {
        assert(s[i] < 128);
    }
    vstd::utf8::partial_valid_utf8_extend_ascii_block(s, 0, s.len() as int);
    assert(s.subrange(0, s.len() as int) =~= s);
    reveal(utf8_text);
}

/// The decimal form of an integer is ASCII, hence valid UTF-8.
pub proof fn lemma_dec_int_valid_utf8(n: int)
    ensures
        forall|i: int| 0 <= i < dec_int(n).len() ==> #[trigger] dec_int(n)[i] < 128,
        valid_utf8(dec_int(n)),
{
    if n < 0 {
        lemma_dec_digits_are_digits((-n) as nat);
        assert forall|i: int| 0 <= i < dec_int(n).len() implies #[trigger] dec_int(n)[i]
            < 128 by {
            if i > 0 {
                assert(is_digit(dec_digits((-n) as nat)[i - 1]));
            }
        }
    } else {
        lemma_dec_digits_are_digits(n as nat);
        assert forall|i: int| 0 <= i < dec_int(n).len() implies #[trigger] dec_int(n)[i]
            < 128 by {
            assert(is_digit(dec_digits(n as nat)[i]));
        }
    }
    lemma_ascii_valid_utf8(dec_int(n));
}

/// Every encoded envelope is valid UTF-8: the versions, timestamp, tags and
/// separators are ASCII, and a title rides as the encoding of its own
/// characters.
pub proof fn lemma_encoded_envelope_valid_utf8(env: EnvelopeView<EventView>)
    ensures
        valid_utf8(spec_encode_envelope(env)),
        utf8_text(spec_encode_envelope(env)),
{
    reveal(utf8_text);
    broadcast use vstd::utf8::valid_utf8_concat, vstd::utf8::encode_utf8_valid_utf8;

    let sp = seq![SP];
    assert(valid_utf8(sp)) by {
        lemma_ascii_valid_utf8(sp);
    }
    lemma_dec_int_valid_utf8(env.aggregate_version);
    lemma_dec_int_valid_utf8(env.event_version);
    lemma_dec_int_valid_utf8(env.occurred_on);
    assert(valid_utf8(dec_int(env.aggregate_version) + sp));
    assert(valid_utf8(dec_int(env.aggregate_version) + sp + dec_int(env.event_version)));
    assert(valid_utf8(dec_int(env.aggregate_version) + sp + dec_int(env.event_version) + sp));
    assert(valid_utf8(
        dec_int(env.aggregate_version) + sp + dec_int(env.event_version) + sp + dec_int(
            env.occurred_on,
        ),
    ));
    assert(valid_utf8(
        dec_int(env.aggregate_version) + sp + dec_int(env.event_version) + sp + dec_int(
            env.occurred_on,
        ) + sp,
    ));
    match env.event {
        EventView::Created { aggregate_id, sequential_id } => {
            assert(valid_utf8(seq![TAG_CREATED, SP])) by {
                lemma_ascii_valid_utf8(seq![TAG_CREATED, SP]);
            }
            assert(valid_utf8(dec_digits(aggregate_id as nat))) by {
                lemma_dec_digits_are_digits(aggregate_id as nat);
                lemma_ascii_valid_utf8(dec_digits(aggregate_id as nat));
            }
            lemma_dec_int_valid_utf8(sequential_id);
            assert(valid_utf8(seq![TAG_CREATED, SP] + dec_digits(aggregate_id as nat)));
            assert(valid_utf8(seq![TAG_CREATED, SP] + dec_digits(aggregate_id as nat) + sp));
            assert(valid_utf8(
                seq![TAG_CREATED, SP] + dec_digits(aggregate_id as nat) + sp + dec_int(
                    sequential_id,
                ),
            ));
            assert(spec_encode_event(env.event) == seq![TAG_CREATED, SP] + dec_digits(
                aggregate_id as nat,
            ) + sp + dec_int(sequential_id)) by {
                assert(seq![SP] =~= sp);
            }
        },
        EventView::Closed => {
            assert(valid_utf8(seq![TAG_CLOSED])) by {
                lemma_ascii_valid_utf8(seq![TAG_CLOSED]);
            }
            assert(valid_utf8(spec_encode_event(env.event)));
        },
        EventView::TitleEdited { title } => {
            assert(valid_utf8(seq![TAG_TITLE_EDITED, SP])) by {
                lemma_ascii_valid_utf8(seq![TAG_TITLE_EDITED, SP]);
            }
            assert(valid_utf8(seq![TAG_TITLE_EDITED, SP] + encode_utf8(title)));
            assert(valid_utf8(spec_encode_event(env.event)));
        },
        EventView::PriorityRescored { priority } => {
            assert(valid_utf8(seq![TAG_PRIORITY_RESCORED, SP])) by {
                lemma_ascii_valid_utf8(seq![TAG_PRIORITY_RESCORED, SP]);
            }
            lemma_dec_int_valid_utf8(priority);
            assert(valid_utf8(seq![TAG_PRIORITY_RESCORED, SP] + dec_int(priority)));
            assert(valid_utf8(spec_encode_event(env.event)));
        },
        EventView::CostRescored { cost } => {
            assert(valid_utf8(seq![TAG_COST_RESCORED, SP])) by {
                lemma_ascii_valid_utf8(seq![TAG_COST_RESCORED, SP]);
            }
            lemma_dec_int_valid_utf8(cost);
            assert(valid_utf8(seq![TAG_COST_RESCORED, SP] + dec_int(cost)));
            assert(valid_utf8(spec_encode_event(env.event)));
        },
    }
    assert(valid_utf8(
        dec_int(env.aggregate_version) + sp + dec_int(env.event_version) + sp + dec_int(
            env.occurred_on,
        ) + sp + spec_encode_event(env.event),
    ));
    assert(spec_encode_envelope(env) == dec_int(env.aggregate_version) + sp + dec_int(
        env.event_version,
    ) + sp + dec_int(env.occurred_on) + sp + spec_encode_event(env.event)) by {
        assert(seq![SP] =~= sp);
    }
}

/// Encode an envelope for storage; the bytes are always valid UTF-8.
pub fn encode_envelope(env: &DomainEventEnvelope<TaskDomainEvent>) -> (r: Vec<u8>)
    ensures
        r@ == spec_encode_envelope(env@),
        utf8_text(r@),
{
    proof {
        lemma_encoded_envelope_valid_utf8(env@);
    }
    let mut out: Vec<u8> = Vec::new();
    push_dec_i64(&mut out, env.aggregate_version() as i64);
    out.push(SP);
    push_dec_i64(&mut out, env.event_version() as i64);
    out.push(SP);
    push_dec_i64(&mut out, env.occurred_on());
    out.push(SP);
    match env.event() {
        TaskDomainEvent::Created { aggregate_id, sequential_id } => {
            out.push(TAG_CREATED);
            out.push(SP);
            push_dec_u128(&mut out, aggregate_id.to_u128());
            out.push(SP);
            push_dec_i64(&mut out, sequential_id.to_i64());
        },
        TaskDomainEvent::Closed => {
            out.push(TAG_CLOSED);
        },
        TaskDomainEvent::TitleEdited { title } => {
            out.push(TAG_TITLE_EDITED);
            out.push(SP);
            let mut bytes = vstd::string::StrSliceExecFns::as_bytes_vec(title.as_str());
            out.append(&mut bytes);
        },
        TaskDomainEvent::CostRescored { cost } => {
            out.push(TAG_COST_RESCORED);
            out.push(SP);
            push_dec_i64(&mut out, cost.to_i32() as i64);
        },
        TaskDomainEvent::PriorityRescored { priority } => {
            out.push(TAG_PRIORITY_RESCORED);
            out.push(SP);
            push_dec_i64(&mut out, priority.to_i32() as i64);
        },
    }
    proof {
        assert(out@ =~= spec_encode_envelope(env@));
    }
    out
}

/// What decoding the event part, from `pos` to the end of the payload,
/// yields. Decoding consumes everything: trailing bytes are a corrupt event.
pub open spec fn spec_decode_event(s: Seq<u8>, pos: int) -> Option<EventView> {
    if !(0 <= pos < s.len()) {
        None
    } else if s[pos] == TAG_CLOSED {
        if pos + 1 == s.len() {
            Some(EventView::Closed)
        } else {
            None
        }
    } else if s[pos] == TAG_TITLE_EDITED {
        if pos + 1 < s.len() && s[pos + 1] == SP && valid_utf8(s.subrange(pos + 2, s.len() as int)) {
            Some(EventView::TitleEdited { title: decode_utf8(s.subrange(pos + 2, s.len() as int)) })
        } else {
            None
        }
    } else if s[pos] == TAG_PRIORITY_RESCORED {
        if pos + 1 < s.len() && s[pos + 1] == SP && int_present(s, pos + 2) && i32::MIN <= int_val(
            s,
            pos + 2,
        ) <= i32::MAX && int_end(s, pos + 2) == s.len() {
            Some(EventView::PriorityRescored { priority: int_val(s, pos + 2) })
        } else {
            None
        }
    } else if s[pos] == TAG_COST_RESCORED {
        if pos + 1 < s.len() && s[pos + 1] == SP && int_present(s, pos + 2) && i32::MIN <= int_val(
            s,
            pos + 2,
        ) <= i32::MAX && int_end(s, pos + 2) == s.len() {
            Some(EventView::CostRescored { cost: int_val(s, pos + 2) })
        } else {
            None
        }
    } else if s[pos] == TAG_CREATED {
        if pos + 1 < s.len() && s[pos + 1] == SP {
            let e1 = run_end(s, pos + 2);
            let a = dec_val(s.subrange(pos + 2, e1));
            if e1 > pos + 2 && a <= u128::MAX && e1 < s.len() && s[e1] == SP && int_present(
                s,
                e1 + 1,
            ) && i64::MIN <= int_val(s, e1 + 1) <= i64::MAX && int_end(s, e1 + 1) == s.len() {
                Some(EventView::Created { aggregate_id: a as u128, sequential_id: int_val(s, e1 + 1) })
            } else {
                None
            }
        } else {
            None
        }
    } else {
        None
    }
}

/// What decoding a whole payload yields.
pub open spec fn spec_decode_envelope(s: Seq<u8>) -> Option<EnvelopeView<EventView>> {
    if !(int_present(s, 0) && i32::MIN <= int_val(s, 0) <= i32::MAX) {
        None
    } else {
        let p1 = int_end(s, 0);
        if !(p1 < s.len() && s[p1] == SP) {
            None
        } else if !(int_present(s, p1 + 1) && i32::MIN <= int_val(s, p1 + 1) <= i32::MAX) {
            None
        } else {
            let p2 = int_end(s, p1 + 1);
            if !(p2 < s.len() && s[p2] == SP) {
                None
            } else if !(int_present(s, p2 + 1) && i64::MIN <= int_val(s, p2 + 1) <= i64::MAX) {
                None
            } else {
                let p3 = int_end(s, p2 + 1);
                if !(p3 < s.len() && s[p3] == SP) {
                    None
                } else {
                    match spec_decode_event(s, p3 + 1) {
                        Some(e) => Some(
                            EnvelopeView {
                                event: e,
                                aggregate_version: int_val(s, 0),
                                event_version: int_val(s, p1 + 1),
                                occurred_on: int_val(s, p2 + 1),
                            },
                        ),
                        None => None,
                    }
                }
            }
        }
    }
}

/// The bytes from `from` to the end, as their own vector.
fn tail_bytes(s: &Vec<u8>, from: usize) -> (r: Vec<u8>)
    requires
        from <= s.len(),
    ensures
        r@ == s@.subrange(from as int, s@.len() as int),
{
    let mut r: Vec<u8> = Vec::new();
    let mut i = from;
    while i < s.len()
        invariant
            from <= i <= s.len(),
            r@ == s@.subrange(from as int, i as int),
        decreases s.len() - i,
    {
        r.push(s[i]);
        i += 1;
        proof {
            assert(r@ =~= s@.subrange(from as int, i as int));
        }
    }
    proof {
        assert(r@ =~= s@.subrange(from as int, s@.len() as int));
    }
    r
}

/// Turn stored bytes back into a string.
///
/// Relies on String::from_utf8: it succeeds exactly on valid UTF-8 input,
/// and the returned string's characters encode back to those very bytes.
#[verifier::external_body]
fn bytes_to_string(v: Vec<u8>) -> (r: Option<String>)
    ensures
        r is Some <==> valid_utf8(v@),
        r is Some ==> encode_utf8(r->0@) == v@,
{
    String::from_utf8(v).ok()
}

/// Decode one stored payload back into an envelope; `None` on any corrupt
/// byte. This is exactly the inverse of `encode_envelope`.
pub fn decode_envelope(s: &Vec<u8>) -> (r: Option<DomainEventEnvelope<TaskDomainEvent>>)
    ensures
        match r {
            Some(env) => spec_decode_envelope(s@) == Some(env@),
            None => spec_decode_envelope(s@) is None,
        },
{
    broadcast use vstd::utf8::encode_utf8_decode_utf8;

    let (av64, p1) = match read_i64(s, 0) {
        Some(x) => x,
        None => { return None; },
    };
    if av64 < i32::MIN as i64 || av64 > i32::MAX as i64 {
        return None;
    }
    if p1 >= s.len() || s[p1] != SP {
        return None;
    }
    let (ev64, p2) = match read_i64(s, p1 + 1) {
        Some(x) => x,
        None => { return None; },
    };
    if ev64 < i32::MIN as i64 || ev64 > i32::MAX as i64 {
        return None;
    }
    if p2 >= s.len() || s[p2] != SP {
        return None;
    }
    let (on, p3) = match read_i64(s, p2 + 1) {
        Some(x) => x,
        None => { return None; },
    };
    if p3 >= s.len() || s[p3] != SP {
        return None;
    }
    let event = match decode_event(s, p3 + 1) {
        Some(e) => e,
        None => { return None; },
    };
    Some(DomainEventEnvelope::from_parts(event, av64 as i32, ev64 as i32, on))
}

/// Decode the event part of a payload, from `pos` to the end.
fn decode_event(s: &Vec<u8>, pos: usize) -> (r: Option<TaskDomainEvent>)
    requires
        pos <= s.len(),
    ensures
        match r {
            Some(e) => spec_decode_event(s@, pos as int) == Some(e@),
            None => spec_decode_event(s@, pos as int) is None,
        },
{
    broadcast use vstd::utf8::encode_utf8_decode_utf8;

    if pos >= s.len() {
        return None;
    }
    let tag = s[pos];
    if tag == TAG_CLOSED {
        if pos + 1 == s.len() {
            Some(TaskDomainEvent::Closed)
        } else {
            None
        }
    } else if tag == TAG_TITLE_EDITED {
        if pos + 1 < s.len() && s[pos + 1] == SP {
            let bytes = tail_bytes(s, pos + 2);
            match bytes_to_string(bytes) {
                Some(title) => {
                    proof {
                        vstd::utf8::encode_utf8_decode_utf8(title@);
                    }
                    Some(TaskDomainEvent::TitleEdited { title })
                },
                None => None,
            }
        } else {
            None
        }
    } else if tag == TAG_PRIORITY_RESCORED {
        if pos + 1 < s.len() && s[pos + 1] == SP {
            match read_i64(s, pos + 2) {
                Some((v, p)) => {
                    if i32::MIN as i64 <= v && v <= i32::MAX as i64 && p == s.len() {
                        Some(TaskDomainEvent::PriorityRescored { priority: Priority::new(v as i32) })
                    } else {
                        None
                    }
                },
                None => None,
            }
        } else {
            None
        }
    } else if tag == TAG_COST_RESCORED {
        if pos + 1 < s.len() && s[pos + 1] == SP {
            match read_i64(s, pos + 2) {
                Some((v, p)) => {
                    if i32::MIN as i64 <= v && v <= i32::MAX as i64 && p == s.len() {
                        Some(TaskDomainEvent::CostRescored { cost: Cost::new(v as i32) })
                    } else {
                        None
                    }
                },
                None => None,
            }
        } else {
            None
        }
    } else if tag == TAG_CREATED {
        if pos + 1 < s.len() && s[pos + 1] == SP {
            match read_u128(s, pos + 2) {
                Some((a, e1)) => {
                    if e1 < s.len() && s[e1] == SP {
                        match read_i64(s, e1 + 1) {
                            Some((q, p)) => {
                                if p == s.len() {
                                    Some(
                                        TaskDomainEvent::Created {
                                            aggregate_id: AggregateID::from_u128(a),
                                            sequential_id: SequentialID::new(q),
                                        },
                                    )
                                } else {
                                    None
                                }
                            },
                            None => None,
                        }
                    } else {
                        None
                    }
                },
                None => None,
            }
        } else {
            None
        }
    } else {
        None
    }
}

/// Whether an event's numeric fields fit the widths the format carries:
/// exactly the bounds every executable event satisfies.
pub open spec fn event_encodable(e: EventView) -> bool {
    crate::es_task::event_bounded(e)
}

/// Whether an envelope's numeric fields fit the widths the format carries.
pub open spec fn envelope_encodable(env: EnvelopeView<EventView>) -> bool {
    &&& i32::MIN <= env.aggregate_version <= i32::MAX
    &&& i32::MIN <= env.event_version <= i32::MAX
    &&& i64::MIN <= env.occurred_on <= i64::MAX
    &&& event_encodable(env.event)
}

/// Codec round-trip: decoding what `encode_envelope` wrote yields the very
/// same envelope, for every envelope whose fields fit the format's widths.
pub proof fn lemma_envelope_round_trip(env: EnvelopeView<EventView>)
    requires
        envelope_encodable(env),
    ensures
        spec_decode_envelope(spec_encode_envelope(env)) == Some(env),
{
    let s = spec_encode_envelope(env);
    let a = dec_int(env.aggregate_version);
    let b = dec_int(env.event_version);
    let c = dec_int(env.occurred_on);
    let d = spec_encode_event(env.event);
    let la = a.len() as int;
    let lb = b.len() as int;
    let lc = c.len() as int;
    let q = la + lb + lc + 3;
    assert(s.len() == q + d.len());
    assert(s.subrange(0, la) =~= a);
    assert(s[la] == SP);
    lemma_int_at(s, 0, env.aggregate_version);
    assert(s.subrange(la + 1, la + 1 + lb) =~= b);
    assert(s[la + 1 + lb] == SP);
    lemma_int_at(s, la + 1, env.event_version);
    assert(s.subrange(la + lb + 2, la + lb + 2 + lc) =~= c);
    assert(s[la + lb + 2 + lc] == SP);
    lemma_int_at(s, la + lb + 2, env.occurred_on);
    match env.event {
        EventView::Created { aggregate_id, sequential_id } => {
            let ds = dec_digits(aggregate_id as nat);
            let da = ds.len() as int;
            let e1 = q + 2 + da;
            assert(s[q] == TAG_CREATED && s[q + 1] == SP);
            assert(s.subrange(q + 2, e1) =~= ds);
            assert(s[e1] == SP);
            lemma_dec_digits_are_digits(aggregate_id as nat);
            crate::codec::lemma_run_end_exact(s, q + 2, e1);
            crate::codec::lemma_dec_val_of_digits(aggregate_id as nat);
            assert(s.subrange(e1 + 1, e1 + 1 + dec_int(sequential_id).len()) =~= dec_int(
                sequential_id,
            ));
            lemma_int_at(s, e1 + 1, sequential_id);
            assert(spec_decode_event(s, q) == Some(env.event));
        },
        EventView::Closed => {
            assert(s[q] == TAG_CLOSED);
            assert(spec_decode_event(s, q) == Some(env.event));
        },
        EventView::TitleEdited { title } => {
            assert(s[q] == TAG_TITLE_EDITED && s[q + 1] == SP);
            assert(s.subrange(q + 2, s.len() as int) =~= encode_utf8(title));
            vstd::utf8::encode_utf8_valid_utf8(title);
            vstd::utf8::encode_utf8_decode_utf8(title);
            assert(spec_decode_event(s, q) == Some(env.event));
        },
        EventView::PriorityRescored { priority } => {
            assert(s[q] == TAG_PRIORITY_RESCORED && s[q + 1] == SP);
            assert(s.subrange(q + 2, q + 2 + dec_int(priority).len()) =~= dec_int(priority));
            lemma_int_at(s, q + 2, priority);
            assert(spec_decode_event(s, q) == Some(env.event));
        },
        EventView::CostRescored { cost } => {
            assert(s[q] == TAG_COST_RESCORED && s[q + 1] == SP);
            assert(s.subrange(q + 2, q + 2 + dec_int(cost).len()) =~= dec_int(cost));
            lemma_int_at(s, q + 2, cost);
            assert(spec_decode_event(s, q) == Some(env.event));
        },
    }
    assert(spec_decode_envelope(s) == Some(env));
}

} // verus!
