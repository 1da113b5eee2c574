//! What messages tell: errors that differ in a number or a reason have different texts.

use vstd::prelude::*;
use vstd::string::*;

use crate::error::{BeamWorker, Error};
use crate::program::{index_out_of_range, slot_not_found};
use crate::schedule_cache::normalization_mismatch;
use crate::text::{
    dec, dec_int, dec_items, dec_list, dec_option, law_decimals_are_distinct, law_signed_numbers_are_told_apart, nats,
};
use crate::vars::bind_mismatch;

verus! {

/// A character that numbers are written with.
pub open spec fn in_number(c: char) -> bool {
    '0' <= c <= '9' || c == '-'
}

/// A text is written with such characters alone.
pub open spec fn is_number(s: Seq<char>) -> bool {
    s.len() > 0 && forall|i: int| #![trigger s[i]] 0 <= i < s.len() ==> in_number(s[i])
}

/// A text does not go on with such a character.
pub open spec fn breaks(s: Seq<char>) -> bool {
    s.len() == 0 || !in_number(s[0])
}

proof fn lemma_dec_is_number(n: nat)
    ensures
        is_number(dec(n)),
    decreases n,
{
    if n >= 10 {
        lemma_dec_is_number(n / 10);
    }
}

proof fn lemma_dec_int_is_number(n: int)
    ensures
        is_number(dec_int(n)),
{
    reveal_strlit("-");
    lemma_dec_is_number(if n < 0 { (-n) as nat } else { n as nat });
}

/// A number ends where a character comes that is not one of a number's.
proof fn lemma_number_ends(a: Seq<char>, q: Seq<char>, b: Seq<char>, r: Seq<char>)
    requires
        is_number(a),
        is_number(b),
        breaks(q),
        breaks(r),
        a + q == b + r,
    ensures
        a == b,
        q == r,
{
    let (x, y) = (a + q, b + r);
    if a.len() < b.len() {
        assert(x[a.len() as int] == y[a.len() as int]);
        assert(y[a.len() as int] == b[a.len() as int]);
        assert(q.len() > 0);
        assert(x[a.len() as int] == q[0]);
    }
    if b.len() < a.len() {
        assert(x[b.len() as int] == y[b.len() as int]);
        assert(x[b.len() as int] == a[b.len() as int]);
        assert(r.len() > 0);
        assert(y[b.len() as int] == r[0]);
    }
    assert(a =~= x.subrange(0, a.len() as int));
    assert(b =~= y.subrange(0, b.len() as int));
    assert(q =~= x.skip(a.len() as int));
    assert(r =~= y.skip(b.len() as int));
}

/// Behind one beginning stands one end.
proof fn lemma_same_end(p: Seq<char>, x: Seq<char>, y: Seq<char>)
    requires
        p + x == p + y,
    ensures
        x == y,
{
    assert((p + x).skip(p.len() as int) =~= x);
    assert((p + y).skip(p.len() as int) =~= y);
}

/// Two numbers with text before, between and after them give the numbers back.
proof fn lemma_two_numbers(
    p: Seq<char>,
    a: Seq<char>,
    m: Seq<char>,
    b: Seq<char>,
    e: Seq<char>,
    c: Seq<char>,
    d: Seq<char>,
)
    requires
        is_number(a),
        is_number(b),
        is_number(c),
        is_number(d),
        breaks(m) && m.len() > 0,
        breaks(e),
        p + a + m + b + e == p + c + m + d + e,
    ensures
        a == c,
        b == d,
{
    assert(p + a + m + b + e =~= p + (a + (m + (b + e))));
    assert(p + c + m + d + e =~= p + (c + (m + (d + e))));
    lemma_same_end(p, a + (m + (b + e)), c + (m + (d + e)));
    lemma_number_ends(a, m + (b + e), c, m + (d + e));
    lemma_same_end(m, b + e, d + e);
    lemma_number_ends(b, e, d, e);
}

/// A conflict between values is told by both of them.
pub proof fn law_conflicts_tell_both_values(
    name: Seq<char>,
    context: Seq<char>,
    a: i64,
    b: i64,
    c: i64,
    d: i64,
)
    ensures
        bind_mismatch(name, a, b, context) == bind_mismatch(name, c, d, context) ==> a == c && b == d,
        normalization_mismatch(name, a, b) == normalization_mismatch(name, c, d) ==> a == c && b == d,
{
    let (v, w, x, y) = (dec_int(a as int), dec_int(b as int), dec_int(c as int), dec_int(d as int));
    lemma_dec_int_is_number(a as int);
    lemma_dec_int_is_number(b as int);
    lemma_dec_int_is_number(c as int);
    lemma_dec_int_is_number(d as int);
    reveal_strlit(" != ");
    reveal_strlit(" (");
    reveal_strlit(" vs ");
    if bind_mismatch(name, a, b, context) == bind_mismatch(name, c, d, context) {
        let p = "bind mismatch on "@ + name + ", "@;
        let e = " ("@ + context + ")"@;
        assert(bind_mismatch(name, a, b, context) =~= p + v + " != "@ + w + e);
        assert(bind_mismatch(name, c, d, context) =~= p + x + " != "@ + y + e);
        lemma_two_numbers(p, v, " != "@, w, e, x, y);
        law_signed_numbers_are_told_apart(a as int, c as int);
        law_signed_numbers_are_told_apart(b as int, d as int);
    }
    if normalization_mismatch(name, a, b) == normalization_mismatch(name, c, d) {
        let p = "bind mismatch on variable "@ + name + ": "@;
        let e = Seq::<char>::empty();
        assert(normalization_mismatch(name, a, b) =~= p + v + " vs "@ + w + e);
        assert(normalization_mismatch(name, c, d) =~= p + x + " vs "@ + y + e);
        lemma_two_numbers(p, v, " vs "@, w, e, x, y);
        law_signed_numbers_are_told_apart(a as int, c as int);
        law_signed_numbers_are_told_apart(b as int, d as int);
    }
}

/// A conflict is told by the variable's name, which stands behind the same words.
pub proof fn law_conflicts_begin_with_the_name(name: Seq<char>, context: Seq<char>, a: i64, b: i64)
    ensures
        bind_mismatch(name, a, b, context).len() >= 17 + name.len() && bind_mismatch(name, a, b, context).subrange(
            17,
            17 + name.len() as int,
        ) == name,
        normalization_mismatch(name, a, b).len() >= 26 + name.len() && normalization_mismatch(name, a, b).subrange(
            26,
            26 + name.len() as int,
        ) == name,
        bind_mismatch(name, a, b, context).len() >= 1 + context.len() && bind_mismatch(name, a, b, context).subrange(
            bind_mismatch(name, a, b, context).len() - 1 - context.len(),
            bind_mismatch(name, a, b, context).len() - 1,
        ) == context,
{
    reveal_strlit("bind mismatch on ");
    reveal_strlit("bind mismatch on variable ");
    reveal_strlit(")");
    let m = bind_mismatch(name, a, b, context);
    assert(m.subrange(17, 17 + name.len() as int) =~= name);
    assert(m.subrange(m.len() - 1 - context.len(), m.len() - 1) =~= context);
    assert(normalization_mismatch(name, a, b).subrange(26, 26 + name.len() as int) =~= name);
}

// ---------------------------------------------------------------------------
// Lists
// ---------------------------------------------------------------------------

proof fn lemma_last_number(p: Seq<char>, a: Seq<char>, q: Seq<char>, b: Seq<char>)
    requires
        is_number(a),
        is_number(b),
        p.len() > 0 && !in_number(p.last()),
        q.len() > 0 && !in_number(q.last()),
        p + a == q + b,
    ensures
        a == b,
        p == q,
{
    let (x, y) = (p + a, q + b);
    if p.len() < q.len() {
        let i = q.len() - 1;
        assert(x[i] == y[i]);
        assert(y[i] == q.last());
        assert(x[i] == a[i - p.len()]);
    }
    if q.len() < p.len() {
        let i = p.len() - 1;
        assert(x.len() == y.len());
        assert(x[i] == y[i]);
        assert(x[i] == p[i]);
        assert(q.len() <= i < y.len());
        assert(y[i] == b[i - q.len()]);
    }
    assert(p =~= x.subrange(0, p.len() as int));
    assert(q =~= y.subrange(0, q.len() as int));
    assert(a =~= x.skip(p.len() as int));
    assert(b =~= y.skip(q.len() as int));
}

proof fn lemma_items(s: Seq<nat>, k: nat, t: Seq<nat>, n: nat)
    requires
        k <= s.len(),
        n <= t.len(),
        dec_items(s, k) == dec_items(t, n),
    ensures
        k == n,
        forall|i: int| 0 <= i < k ==> #[trigger] s[i] == t[i],
    decreases k + n,
{
    reveal_strlit(", ");
    if k > 0 {
        lemma_dec_is_number(s[k - 1]);
    }
    if n > 0 {
        lemma_dec_is_number(t[n - 1]);
    }
    if k > 1 && n > 1 {
        let (p, q) = (dec_items(s, (k - 1) as nat) + ", "@, dec_items(t, (n - 1) as nat) + ", "@);
        lemma_last_number(p, dec(s[k - 1]), q, dec(t[n - 1]));
        law_decimals_are_distinct(s[k - 1], t[n - 1]);
        assert(p.subrange(0, p.len() - 2) =~= dec_items(s, (k - 1) as nat));
        assert(q.subrange(0, q.len() - 2) =~= dec_items(t, (n - 1) as nat));
        lemma_items(s, (k - 1) as nat, t, (n - 1) as nat);
    } else if k == 1 && n == 1 {
        law_decimals_are_distinct(s[0], t[0]);
    } else if k == 1 && n > 1 {
        let x = dec_items(t, n);
        let i = dec_items(t, (n - 1) as nat).len() as int;
        assert(x[i] == ',');
        assert(in_number(dec(s[0])[i]));
    } else if n == 1 && k > 1 {
        let x = dec_items(s, k);
        let i = dec_items(s, (k - 1) as nat).len() as int;
        assert(x[i] == ',');
        assert(in_number(dec(t[0])[i]));
    } else if k == 0 && n > 0 {
        assert(dec_items(t, n).len() > 0);
    } else if n == 0 && k > 0 {
        assert(dec_items(s, k).len() > 0);
    }
}

/// A list is told by all of its numbers, in order.
pub proof fn law_lists_are_told_apart(s: Seq<nat>, t: Seq<nat>)
    requires
        dec_list(s) == dec_list(t),
    ensures
        s == t,
{
    reveal_strlit("[");
    reveal_strlit("]");
    let (x, y) = (dec_list(s), dec_list(t));
    assert(x.subrange(1, x.len() - 1) =~= dec_items(s, s.len()));
    assert(y.subrange(1, y.len() - 1) =~= dec_items(t, t.len()));
    lemma_items(s, s.len(), t, t.len());
    assert(s =~= t);
}

// ---------------------------------------------------------------------------
// Errors
// ---------------------------------------------------------------------------

/// Errors of one kind have one text only where they say the same: the same numbers, the
/// same shape and the same reason.
pub proof fn law_errors_tell_what_they_hold(a: Error, b: Error)
    requires
        a.message() == b.message(),
    ensures
        a matches Error::BatchOutputMismatch { expected, actual } ==> b matches Error::BatchOutputMismatch {
            expected: x,
            actual: y,
        } ==> expected == x && actual == y,
        a matches Error::IrConstruction { details } ==> b matches Error::IrConstruction { details: x } ==> details@ == x@,
        a matches Error::BufferNotFound { uop_id } ==> b matches Error::BufferNotFound { uop_id: x } ==> uop_id == x,
        a matches Error::ReshapeMismatch { elements, shape } ==> b matches Error::ReshapeMismatch {
            elements: x,
            shape: y,
        } ==> elements == x && shape@ == y@,
        a matches Error::Stage { stage, message } ==> b matches Error::Stage { stage: x, message: y } ==> stage@ == x@
            ==> message@ == y@,
{
    reveal_strlit(", got ");
    match (a, b) {
        (Error::BatchOutputMismatch { expected, actual }, Error::BatchOutputMismatch { expected: x, actual: y }) => {
            lemma_pair("batch output mismatch: expected "@, ", got "@, expected as nat, actual as nat, x as nat, y as nat);
        },
        (Error::IrConstruction { details }, Error::IrConstruction { details: x }) => {
            lemma_same_end("IR construction failed: "@, details@, x@);
        },
        (Error::BufferNotFound { uop_id }, Error::BufferNotFound { uop_id: x }) => {
            lemma_same_end("buffer not found for uop "@, dec(uop_id as nat), dec(x as nat));
            law_decimals_are_distinct(uop_id as nat, x as nat);
        },
        (Error::ReshapeMismatch { elements, shape }, Error::ReshapeMismatch { elements: x, shape: y }) => {
            let p = "cannot reshape "@;
            let m = " elements to "@;
            reveal_strlit(" elements to ");
            let (u, v) = (dec_list(nats(shape@)), dec_list(nats(y@)));
            lemma_dec_is_number(elements as nat);
            lemma_dec_is_number(x as nat);
            assert(a.message() =~= p + (dec(elements as nat) + (m + u)));
            assert(b.message() =~= p + (dec(x as nat) + (m + v)));
            lemma_same_end(p, dec(elements as nat) + (m + u), dec(x as nat) + (m + v));
            lemma_number_ends(dec(elements as nat), m + u, dec(x as nat), m + v);
            law_decimals_are_distinct(elements as nat, x as nat);
            lemma_same_end(m, u, v);
            law_lists_are_told_apart(nats(shape@), nats(y@));
            lemma_nats(shape@, y@);
        },
        (Error::Stage { stage, message }, Error::Stage { stage: x, message: y }) => {
            if stage@ == x@ {
                lemma_same_end(stage@ + " failed: "@, message@, y@);
            }
        },
        _ => {},
    }
}

proof fn lemma_nats(a: Seq<usize>, b: Seq<usize>)
    requires
        nats(a) == nats(b),
    ensures
        a == b,
{
    assert(nats(a).len() == a.len() && nats(b).len() == b.len());
    assert forall|i: int| 0 <= i < a.len() implies a[i] == b[i] by {
        assert(nats(a)[i] == a[i] as nat);
        assert(nats(b)[i] == b[i] as nat);
    }
    assert(a =~= b);
}

proof fn lemma_pair(p: Seq<char>, m: Seq<char>, a: nat, b: nat, c: nat, d: nat)
    requires
        m.len() > 0,
        !in_number(m[0]),
        p + dec(a) + m + dec(b) == p + dec(c) + m + dec(d),
    ensures
        a == c,
        b == d,
{
    lemma_dec_is_number(a);
    lemma_dec_is_number(b);
    lemma_dec_is_number(c);
    lemma_dec_is_number(d);
    let e = Seq::<char>::empty();
    assert(p + dec(a) + m + dec(b) + e =~= p + dec(a) + m + dec(b));
    assert(p + dec(c) + m + dec(d) + e =~= p + dec(c) + m + dec(d));
    lemma_two_numbers(p, dec(a), m, dec(b), e, dec(c), dec(d));
    law_decimals_are_distinct(a, c);
    law_decimals_are_distinct(b, d);
}

/// The same holds of what helpers fail with.
pub proof fn law_helper_errors_tell_what_they_hold(a: BeamWorker, b: BeamWorker)
    requires
        a.message() == b.message(),
    ensures
        a matches BeamWorker::HelperUnavailable { reason } ==> b matches BeamWorker::HelperUnavailable { reason: x }
            ==> reason@ == x@,
        a matches BeamWorker::ProtocolMismatch { expected, actual } ==> b matches BeamWorker::ProtocolMismatch {
            expected: x,
            actual: y,
        } ==> expected == x && actual == y,
        a matches BeamWorker::WorkerMisorder { got, expected } ==> b matches BeamWorker::WorkerMisorder {
            got: x,
            expected: y,
        } ==> got == x && expected == y,
        a matches BeamWorker::CompileStage { stage, reason } ==> b matches BeamWorker::CompileStage { stage: x, reason: y }
            ==> stage@ == x@ ==> reason@ == y@,
        a matches BeamWorker::Frame { what, source } ==> b matches BeamWorker::Frame { what: x, source: y } ==> what@
            == x@ ==> source@ == y@,
        a matches BeamWorker::SpawnHelper { path, source } ==> b matches BeamWorker::SpawnHelper { path: x, source: y }
            ==> path@ == x@ ==> source@ == y@,
{
    reveal_strlit(", got ");
    reveal_strlit(", expected ");
    match (a, b) {
        (BeamWorker::HelperUnavailable { reason }, BeamWorker::HelperUnavailable { reason: x }) => {
            lemma_same_end("BEAM helper unavailable: "@, reason@, x@);
        },
        (BeamWorker::ProtocolMismatch { expected, actual }, BeamWorker::ProtocolMismatch { expected: x, actual: y }) => {
            lemma_pair(
                "BEAM worker protocol mismatch: expected "@,
                ", got "@,
                expected as nat,
                actual as nat,
                x as nat,
                y as nat,
            );
        },
        (BeamWorker::WorkerMisorder { got, expected }, BeamWorker::WorkerMisorder { got: x, expected: y }) => {
            let p = "BEAM worker returned candidate "@;
            let m = ", expected "@;
            let (u, v) = (dec_option(expected), dec_option(y));
            lemma_dec_is_number(got as nat);
            lemma_dec_is_number(x as nat);
            assert(a.message() =~= p + (dec(got as nat) + (m + u)));
            assert(b.message() =~= p + (dec(x as nat) + (m + v)));
            lemma_same_end(p, dec(got as nat) + (m + u), dec(x as nat) + (m + v));
            lemma_number_ends(dec(got as nat), m + u, dec(x as nat), m + v);
            law_decimals_are_distinct(got as nat, x as nat);
            lemma_same_end(m, u, v);
            lemma_options(expected, y);
        },
        (BeamWorker::CompileStage { stage, reason }, BeamWorker::CompileStage { stage: x, reason: y }) => {
            if stage@ == x@ {
                lemma_same_end("BEAM candidate failed at "@ + stage@ + ": "@, reason@, y@);
            }
        },
        (BeamWorker::Frame { what, source }, BeamWorker::Frame { what: x, source: y }) => {
            if what@ == x@ {
                lemma_same_end("failed to "@ + what@ + ": "@, source@, y@);
            }
        },
        (BeamWorker::SpawnHelper { path, source }, BeamWorker::SpawnHelper { path: x, source: y }) => {
            if path@ == x@ {
                lemma_same_end("failed to start BEAM helper "@ + path@ + ": "@, source@, y@);
            }
        },
        _ => {},
    }
}

proof fn lemma_options(a: Option<usize>, b: Option<usize>)
    requires
        dec_option(a) == dec_option(b),
    ensures
        a == b,
{
    reveal_strlit("Some(");
    reveal_strlit("None");
    reveal_strlit(")");
    match (a, b) {
        (Some(x), Some(y)) => {
            let (s, t) = (dec_option(a), dec_option(b));
            assert(s.subrange(5, s.len() - 1) =~= dec(x as nat));
            assert(t.subrange(5, t.len() - 1) =~= dec(y as nat));
            law_decimals_are_distinct(x as nat, y as nat);
        },
        (Some(_), None) => {
            assert(dec_option(a)[0] == 'S');
            assert(dec_option(b)[0] == 'N');
        },
        (None, Some(_)) => {
            assert(dec_option(a)[0] == 'N');
            assert(dec_option(b)[0] == 'S');
        },
        _ => {},
    }
}

/// A number behind one beginning gives itself and what follows it back.
proof fn lemma_cut(head: Seq<char>, a: nat, rest: Seq<char>, b: nat, other: Seq<char>)
    requires
        breaks(rest),
        breaks(other),
        head + (dec(a) + rest) == head + (dec(b) + other),
    ensures
        a == b,
        rest == other,
{
    lemma_dec_is_number(a);
    lemma_dec_is_number(b);
    lemma_same_end(head, dec(a) + rest, dec(b) + other);
    lemma_number_ends(dec(a), rest, dec(b), other);
    law_decimals_are_distinct(a, b);
}

/// A slot that stands nowhere is told by its number and by the slots that there are.
pub proof fn law_missing_slots_tell_their_number(
    list: Seq<char>,
    a: usize,
    b: usize,
    globals: Seq<usize>,
    others: Seq<usize>,
)
    requires
        slot_not_found(list, a, globals) == slot_not_found(list, b, others),
    ensures
        a == b,
        globals == others,
{
    reveal_strlit(" not found in ProgramSpec.globals=");
    let head = "ProgramSpec."@ + list + " slot "@;
    let middle = " not found in ProgramSpec.globals="@;
    let (u, v) = (dec_list(nats(globals)), dec_list(nats(others)));
    assert(slot_not_found(list, a, globals) =~= head + (dec(a as nat) + (middle + u)));
    assert(slot_not_found(list, b, others) =~= head + (dec(b as nat) + (middle + v)));
    lemma_cut(head, a as nat, middle + u, b as nat, middle + v);
    lemma_same_end(middle, u, v);
    law_lists_are_told_apart(nats(globals), nats(others));
    lemma_nats(globals, others);
}

/// The text of a slot that stands too far on, cut at its numbers.
proof fn lemma_range_parts(kind: Seq<char>, p: usize, a: usize, m: usize)
    ensures
        index_out_of_range(kind, p, a, m) == ("ProgramSpec "@ + kind + " index "@) + (dec(p as nat) + (" (slot "@ + (dec(
            a as nat,
        ) + (") out of range for "@ + (dec(m as nat) + " buffers"@))))),
{
    assert(index_out_of_range(kind, p, a, m) =~= ("ProgramSpec "@ + kind + " index "@) + (dec(p as nat) + (" (slot "@ + (
    dec(a as nat) + (") out of range for "@ + (dec(m as nat) + " buffers"@))))));
}

/// A slot that stands too far on is told by its position, its number and the number of
/// buffers.
pub proof fn law_far_slots_tell_their_numbers(
    kind: Seq<char>,
    p: usize,
    q: usize,
    a: usize,
    b: usize,
    m: usize,
    n: usize,
)
    requires
        index_out_of_range(kind, p, a, m) == index_out_of_range(kind, q, b, n),
    ensures
        p == q,
        a == b,
        m == n,
{
    reveal_strlit(" (slot ");
    reveal_strlit(") out of range for ");
    reveal_strlit(" buffers");
    lemma_range_parts(kind, p, a, m);
    lemma_range_parts(kind, q, b, n);
    let (first, second, end) = (" (slot "@, ") out of range for "@, " buffers"@);
    let (x, y) = (dec(m as nat) + end, dec(n as nat) + end);
    let (u, v) = (dec(a as nat) + (second + x), dec(b as nat) + (second + y));
    lemma_cut("ProgramSpec "@ + kind + " index "@, p as nat, first + u, q as nat, first + v);
    lemma_cut(first, a as nat, second + x, b as nat, second + y);
    lemma_cut(second, m as nat, end, n as nat, end);
}

} // verus!
