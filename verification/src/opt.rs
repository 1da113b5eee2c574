//! Kernel optimizations and the form in which tuned plans are stored.

use vstd::bytes::{
    lemma_auto_spec_u64_to_from_le_bytes, spec_u64_from_le_bytes, spec_u64_to_le_bytes, u64_from_le_bytes,
    u64_to_le_bytes,
};
use vstd::prelude::*;
use vstd::slice::slice_subrange;

verus! {

/// The kinds of kernel optimization.
#[derive(Clone, Copy, Debug, PartialEq, Eq, Structural)]
pub enum OptOps {
    TC,
    UPCAST,
    UNROLL,
    LOCAL,
    GROUP,
    GROUPTOP,
    THREAD,
    NOLOCALS,
    PADTO,
    SWAP,
}

/// The argument of a kernel optimization.
#[derive(Clone, Copy, Debug, PartialEq, Eq, Structural)]
pub enum OptArg {
    Int(usize),
    TensorCore { tc_select: i32, opt_level: usize, use_tc: usize },
    Swap { other_axis: usize },
}

/// One kernel optimization.
#[derive(Clone, Copy, Debug, PartialEq, Eq, Structural)]
pub struct Opt {
    pub op: OptOps,
    pub axis: Option<usize>,
    pub arg: OptArg,
}

impl Opt {
    pub fn new(op: OptOps, axis: Option<usize>, arg: OptArg) -> (opt: Opt)
        ensures
            opt == (Opt { op, axis, arg }),
    {
        Opt { op, axis, arg }
    }

    /// Computes `amount` elements of an axis at once.
    pub fn upcast(axis: usize, amount: usize) -> (opt: Opt)
        ensures
            opt == (Opt { op: OptOps::UPCAST, axis: Some(axis), arg: OptArg::Int(amount) }),
    {
        Opt { op: OptOps::UPCAST, axis: Some(axis), arg: OptArg::Int(amount) }
    }

    /// Spreads `amount` elements of an axis over a work group.
    pub fn local(axis: usize, amount: usize) -> (opt: Opt)
        ensures
            opt == (Opt { op: OptOps::LOCAL, axis: Some(axis), arg: OptArg::Int(amount) }),
    {
        Opt { op: OptOps::LOCAL, axis: Some(axis), arg: OptArg::Int(amount) }
    }

    /// Unrolls `amount` steps of a reduction.
    pub fn unroll(axis: usize, amount: usize) -> (opt: Opt)
        ensures
            opt == (Opt { op: OptOps::UNROLL, axis: Some(axis), arg: OptArg::Int(amount) }),
    {
        Opt { op: OptOps::UNROLL, axis: Some(axis), arg: OptArg::Int(amount) }
    }

    /// Splits a reduction over `amount` threads.
    pub fn group(axis: usize, amount: usize) -> (opt: Opt)
        ensures
            opt == (Opt { op: OptOps::GROUP, axis: Some(axis), arg: OptArg::Int(amount) }),
    {
        Opt { op: OptOps::GROUP, axis: Some(axis), arg: OptArg::Int(amount) }
    }

    /// Splits a reduction over `amount` threads, the outer part of it.
    pub fn grouptop(axis: usize, amount: usize) -> (opt: Opt)
        ensures
            opt == (Opt { op: OptOps::GROUPTOP, axis: Some(axis), arg: OptArg::Int(amount) }),
    {
        Opt { op: OptOps::GROUPTOP, axis: Some(axis), arg: OptArg::Int(amount) }
    }

    /// Runs an axis on `amount` CPU threads.
    pub fn thread(axis: usize, amount: usize) -> (opt: Opt)
        ensures
            opt == (Opt { op: OptOps::THREAD, axis: Some(axis), arg: OptArg::Int(amount) }),
    {
        Opt { op: OptOps::THREAD, axis: Some(axis), arg: OptArg::Int(amount) }
    }

    /// Pads an axis to a multiple of `amount`.
    pub fn padto(axis: usize, amount: usize) -> (opt: Opt)
        ensures
            opt == (Opt { op: OptOps::PADTO, axis: Some(axis), arg: OptArg::Int(amount) }),
    {
        Opt { op: OptOps::PADTO, axis: Some(axis), arg: OptArg::Int(amount) }
    }

    /// Exchanges two axes.
    pub fn swap(axis: usize, other_axis: usize) -> (opt: Opt)
        ensures
            opt == (Opt { op: OptOps::SWAP, axis: Some(axis), arg: OptArg::Swap { other_axis } }),
    {
        Opt { op: OptOps::SWAP, axis: Some(axis), arg: OptArg::Swap { other_axis } }
    }

    /// Uses a tensor core.
    pub fn tc(axis: Option<usize>, tc_select: i32, opt_level: usize, use_tc: usize) -> (opt: Opt)
        ensures
            opt == (Opt { op: OptOps::TC, axis, arg: OptArg::TensorCore { tc_select, opt_level, use_tc } }),
    {
        Opt { op: OptOps::TC, axis, arg: OptArg::TensorCore { tc_select, opt_level, use_tc } }
    }

    /// Uses no work groups.
    pub fn nolocals() -> (opt: Opt)
        ensures
            opt == (Opt { op: OptOps::NOLOCALS, axis: None, arg: OptArg::Int(0) }),
    {
        Opt { op: OptOps::NOLOCALS, axis: None, arg: OptArg::Int(0) }
    }
}

/// A copy of a list of optimizations.
pub fn copy_opts(opts: &Vec<Opt>) -> (copy: Vec<Opt>)
    ensures
        copy@ == opts@,
{
    let mut copy: Vec<Opt> = Vec::new();
    let mut i: usize = 0;
    while i < opts.len()
        invariant
            i <= opts@.len(),
            copy@ == opts@.subrange(0, i as int),
        decreases opts@.len() - i,
    {
        copy.push(opts[i]);
        i = i + 1;
    }
    assert(copy@ =~= opts@);
    copy
}

// ---------------------------------------------------------------------------
// Stored plans
// ---------------------------------------------------------------------------

/// The number that stands for a kind of optimization.
pub open spec fn op_code(op: OptOps) -> u64 {
    match op {
        OptOps::TC => 0,
        OptOps::UPCAST => 1,
        OptOps::UNROLL => 2,
        OptOps::LOCAL => 3,
        OptOps::GROUP => 4,
        OptOps::GROUPTOP => 5,
        OptOps::THREAD => 6,
        OptOps::NOLOCALS => 7,
        OptOps::PADTO => 8,
        OptOps::SWAP => 9,
    }
}

/// A signed number as a word: its distance from the least one.
pub open spec fn biased(n: i32) -> u64 {
    (n + 0x8000_0000) as u64
}

/// An optimization as words: its kind; whether it has an axis, and which; the
/// kind of its argument, and the argument's numbers.
pub open spec fn opt_words(opt: Opt) -> Seq<u64> {
    let (has_axis, axis) = match opt.axis {
        Some(axis) => (1u64, axis as u64),
        None => (0u64, 0u64),
    };
    let (kind, a, b, c) = match opt.arg {
        OptArg::Int(amount) => (0u64, amount as u64, 0u64, 0u64),
        OptArg::TensorCore { tc_select, opt_level, use_tc } => (
            1u64,
            biased(tc_select),
            opt_level as u64,
            use_tc as u64,
        ),
        OptArg::Swap { other_axis } => (2u64, other_axis as u64, 0u64, 0u64),
    };
    seq![op_code(opt.op), has_axis, axis, kind, a, b, c]
}

/// A list of optimizations as words: how many there are, then the words of
/// each.
pub open spec fn opts_words(opts: Seq<Opt>) -> Seq<u64> {
    Seq::new(
        1 + 7 * opts.len(),
        |k: int|
            if k == 0 {
                opts.len() as u64
            } else {
                opt_words(opts[(k - 1) / 7])[(k - 1) % 7]
            },
    )
}

/// Words as bytes, the least significant byte of each first.
pub open spec fn word_bytes(words: Seq<u64>) -> Seq<u8> {
    Seq::new(8 * words.len(), |k: int| spec_u64_to_le_bytes(words[k / 8])[k % 8])
}

/// The stored form of a list of optimizations.
pub open spec fn stored(opts: Seq<Opt>) -> Seq<u8> {
    word_bytes(opts_words(opts))
}

fn op_word(op: OptOps) -> (word: u64)
    ensures
        word == op_code(op),
{
    match op {
        OptOps::TC => 0,
        OptOps::UPCAST => 1,
        OptOps::UNROLL => 2,
        OptOps::LOCAL => 3,
        OptOps::GROUP => 4,
        OptOps::GROUPTOP => 5,
        OptOps::THREAD => 6,
        OptOps::NOLOCALS => 7,
        OptOps::PADTO => 8,
        OptOps::SWAP => 9,
    }
}

fn word_op(word: u64) -> (op: Option<OptOps>)
    ensures
        match op {
            Some(op) => op_code(op) == word,
            None => forall|op: OptOps| op_code(op) != word,
        },
{
    if word == 0 {
        Some(OptOps::TC)
    } else if word == 1 {
        Some(OptOps::UPCAST)
    } else if word == 2 {
        Some(OptOps::UNROLL)
    } else if word == 3 {
        Some(OptOps::LOCAL)
    } else if word == 4 {
        Some(OptOps::GROUP)
    } else if word == 5 {
        Some(OptOps::GROUPTOP)
    } else if word == 6 {
        Some(OptOps::THREAD)
    } else if word == 7 {
        Some(OptOps::NOLOCALS)
    } else if word == 8 {
        Some(OptOps::PADTO)
    } else if word == 9 {
        Some(OptOps::SWAP)
    } else {
        None
    }
}

fn to_words(opt: &Opt) -> (words: [u64; 7])
    ensures
        words@ == opt_words(*opt),
{
    let (has_axis, axis): (u64, u64) = match opt.axis {
        Some(axis) => (1, axis as u64),
        None => (0, 0),
    };
    let (kind, a, b, c): (u64, u64, u64, u64) = match opt.arg {
        OptArg::Int(amount) => (0, amount as u64, 0, 0),
        OptArg::TensorCore { tc_select, opt_level, use_tc } => (
            1,
            (tc_select as i64 + 0x8000_0000) as u64,
            opt_level as u64,
            use_tc as u64,
        ),
        OptArg::Swap { other_axis } => (2, other_axis as u64, 0, 0),
    };
    let words = [op_word(opt.op), has_axis, axis, kind, a, b, c];
    assert(words@ =~= opt_words(*opt));
    words
}

fn word_usize(word: u64) -> (n: Option<usize>)
    ensures
        match n {
            Some(n) => n as u64 == word && n == word,
            None => word > usize::MAX,
        },
{
    if word <= usize::MAX as u64 {
        Some(word as usize)
    } else {
        None
    }
}

/// The optimization that seven words stand for, if they stand for one.
fn from_words(w: &[u64; 7]) -> (opt: Option<Opt>)
    ensures
        match opt {
            Some(opt) => opt_words(opt) == w@,
            None => forall|opt: Opt| #[trigger] opt_words(opt) != w@,
        },
{
    let ghost words = w@;
    let op = match word_op(w[0]) {
        Some(op) => op,
        None => {
            assert forall|opt: Opt| #[trigger] opt_words(opt) != words by {
                assert(opt_words(opt)[0] == op_code(opt.op));
            }
            return None;
        }
    };
    let axis_number = word_usize(w[2]);
    let axis: Option<usize> = if w[1] == 0 && w[2] == 0 {
        None
    } else if w[1] == 1 && axis_number.is_some() {
        axis_number
    } else {
        assert forall|opt: Opt| #[trigger] opt_words(opt) != words by {
            assert(opt_words(opt)[1] == if opt.axis is Some { 1u64 } else { 0u64 });
            assert(opt_words(opt)[2] == match opt.axis {
                Some(axis) => axis as u64,
                None => 0u64,
            });
        }
        return None;
    };
    let a = word_usize(w[4]);
    let b = word_usize(w[5]);
    let c = word_usize(w[6]);
    if w[3] == 0 && w[5] == 0 && w[6] == 0 {
        if let Some(amount) = a {
            let opt = Opt { op, axis, arg: OptArg::Int(amount) };
            assert(opt_words(opt) =~= words);
            return Some(opt);
        }
    }
    if w[3] == 1 && w[4] <= 0xffff_ffff {
        if let (Some(opt_level), Some(use_tc)) = (b, c) {
            let tc_select = (w[4] as i64 - 0x8000_0000) as i32;
            let opt = Opt { op, axis, arg: OptArg::TensorCore { tc_select, opt_level, use_tc } };
            assert(opt_words(opt) =~= words);
            return Some(opt);
        }
    }
    if w[3] == 2 && w[5] == 0 && w[6] == 0 {
        if let Some(other_axis) = a {
            let opt = Opt { op, axis, arg: OptArg::Swap { other_axis } };
            assert(opt_words(opt) =~= words);
            return Some(opt);
        }
    }
    assert forall|opt: Opt| #[trigger] opt_words(opt) != words by {
        let other = opt_words(opt);
        match opt.arg {
            OptArg::Int(amount) => {
                assert(other[3] == 0 && other[4] == amount as u64 && other[5] == 0 && other[6] == 0);
            },
            OptArg::TensorCore { tc_select, opt_level, use_tc } => {
                assert(other[3] == 1 && other[4] == biased(tc_select) && other[5] == opt_level as u64 && other[6]
                    == use_tc as u64);
            },
            OptArg::Swap { other_axis } => {
                assert(other[3] == 2 && other[4] == other_axis as u64 && other[5] == 0 && other[6] == 0);
            },
        }
    }
    None
}

/// Appends a word to bytes.
fn push_word(bytes: &mut Vec<u8>, word: u64)
    ensures
        final(bytes)@ == old(bytes)@ + spec_u64_to_le_bytes(word),
        final(bytes)@.len() == old(bytes)@.len() + 8,
{
    let le = u64_to_le_bytes(word);
    let ghost before = bytes@;
    let mut i: usize = 0;
    while i < 8
        invariant
            i <= 8,
            le@.len() == 8,
            bytes@ == before + le@.subrange(0, i as int),
        decreases 8 - i,
    {
        bytes.push(le[i]);
        i = i + 1;
    }
    assert(le@.subrange(0, 8) =~= le@);
}

proof fn lemma_word_bytes_push(words: Seq<u64>, word: u64)
    ensures
        word_bytes(words.push(word)) == word_bytes(words) + spec_u64_to_le_bytes(word),
{
    lemma_auto_spec_u64_to_from_le_bytes();
    assert(spec_u64_to_le_bytes(word).len() == 8);
    let more = words.push(word);
    assert forall|k: int| 0 <= k < 8 * more.len() implies #[trigger] word_bytes(more)[k] == (word_bytes(words)
        + spec_u64_to_le_bytes(word))[k] by {
        if k < 8 * words.len() {
            assert(more[k / 8] == words[k / 8]);
        } else {
            assert(k / 8 == words.len() && k % 8 == k - 8 * words.len());
        }
    }
    assert(word_bytes(more) =~= word_bytes(words) + spec_u64_to_le_bytes(word));
}

/// A list of optimizations as words.
pub fn to_opts_words(opts: &Vec<Opt>) -> (words: Vec<u64>)
    ensures
        words@ == opts_words(opts@),
{
    let mut words: Vec<u64> = Vec::new();
    words.push(opts.len() as u64);
    let mut i: usize = 0;
    while i < opts.len()
        invariant
            i <= opts@.len(),
            words@ == opts_words(opts@).subrange(0, 1 + 7 * i),
        decreases opts@.len() - i,
    {
        let group = to_words(&opts[i]);
        let mut j: usize = 0;
        while j < 7
            invariant
                j <= 7,
                i < opts@.len(),
                group@ == opt_words(opts@[i as int]),
                words@ == opts_words(opts@).subrange(0, 1 + 7 * i + j),
            decreases 7 - j,
        {
            words.push(group[j]);
            proof {
                let k = 1 + 7 * i + j;
                assert((k - 1) / 7 == i && (k - 1) % 7 == j);
                assert(opts_words(opts@)[k] == group@[j as int]);
                assert(words@ =~= opts_words(opts@).subrange(0, k + 1));
            }
            j = j + 1;
        }
        i = i + 1;
    }
    assert(words@ =~= opts_words(opts@));
    words
}

/// Words as bytes, the least significant byte of each first.
pub fn words_to_bytes(words: &Vec<u64>) -> (bytes: Vec<u8>)
    ensures
        bytes@ == word_bytes(words@),
{
    let mut bytes: Vec<u8> = Vec::new();
    let mut i: usize = 0;
    assert(bytes@ =~= word_bytes(words@.subrange(0, 0)));
    while i < words.len()
        invariant
            i <= words@.len(),
            bytes@ == word_bytes(words@.subrange(0, i as int)),
        decreases words@.len() - i,
    {
        push_word(&mut bytes, words[i]);
        proof {
            lemma_word_bytes_push(words@.subrange(0, i as int), words@[i as int]);
            assert(words@.subrange(0, i as int).push(words@[i as int]) =~= words@.subrange(0, i + 1));
        }
        i = i + 1;
    }
    assert(words@.subrange(0, i as int) =~= words@);
    bytes
}

/// The stored form of a list of optimizations.
pub fn serialize_opts(opts: &Vec<Opt>) -> (bytes: Vec<u8>)
    ensures
        bytes@ == stored(opts@),
{
    let words = to_opts_words(opts);
    words_to_bytes(&words)
}

/// Word `i` of bytes that are a whole number of words.
fn read_word(bytes: &[u8], i: usize) -> (word: u64)
    requires
        8 * i + 8 <= bytes@.len(),
    ensures
        spec_u64_to_le_bytes(word) == bytes@.subrange(8 * i, 8 * i + 8),
{
    let len = bytes.len();
    assert(8 * i + 8 <= len);
    let at: usize = 8 * i;
    let part = slice_subrange(bytes, at, at + 8);
    proof {
        lemma_auto_spec_u64_to_from_le_bytes();
    }
    u64_from_le_bytes(part)
}

/// Bytes that store optimizations give their words one by one.
proof fn lemma_stored_word(opts: Seq<Opt>, bytes: Seq<u8>, i: int, word: u64)
    requires
        bytes == stored(opts),
        0 <= i < opts_words(opts).len(),
        spec_u64_to_le_bytes(word) == bytes.subrange(8 * i, 8 * i + 8),
    ensures
        word == opts_words(opts)[i],
{
    lemma_auto_spec_u64_to_from_le_bytes();
    let w = opts_words(opts)[i];
    assert(spec_u64_to_le_bytes(w).len() == 8);
    assert forall|k: int| 0 <= k < 8 implies #[trigger] spec_u64_to_le_bytes(w)[k] == bytes.subrange(
        8 * i,
        8 * i + 8,
    )[k] by {
        assert((8 * i + k) / 8 == i && (8 * i + k) % 8 == k);
    }
    assert(spec_u64_to_le_bytes(w) =~= bytes.subrange(8 * i, 8 * i + 8));
    assert(spec_u64_from_le_bytes(spec_u64_to_le_bytes(w)) == w);
    assert(spec_u64_from_le_bytes(spec_u64_to_le_bytes(word)) == word);
}

/// The optimizations that bytes store: some list if and only if the bytes are
/// its stored form.
pub fn deserialize_opts(bytes: &[u8]) -> (opts: Option<Vec<Opt>>)
    ensures
        match opts {
            Some(opts) => bytes@ == stored(opts@),
            None => forall|opts: Seq<Opt>| bytes@ != #[trigger] stored(opts),
        },
{
    let len = bytes.len();
    if len < 8 || len % 8 != 0 {
        return None;
    }
    let words: usize = len / 8;
    let count = read_word(bytes, 0);
    let present: usize = (words - 1) / 7;
    if (words - 1) % 7 != 0 || count != present as u64 {
        assert forall|opts: Seq<Opt>| bytes@ != #[trigger] stored(opts) by {
            if bytes@ == stored(opts) {
                lemma_stored_word(opts, bytes@, 0, count);
                assert(words - 1 == 7 * opts.len());
            }
        }
        return None;
    }
    let mut opts: Vec<Opt> = Vec::new();
    let ghost mut read: Seq<u64> = seq![count];
    proof {
        lemma_auto_spec_u64_to_from_le_bytes();
        lemma_word_bytes_push(Seq::empty(), count);
        assert(word_bytes(Seq::<u64>::empty()) =~= Seq::empty());
        assert(Seq::<u64>::empty().push(count) =~= read);
        assert(word_bytes(read) =~= bytes@.subrange(0, 8));
    }
    let mut i: usize = 0;
    while i < present
        invariant
            i <= present,
            words == 1 + 7 * present,
            len == bytes@.len(),
            len == 8 * words,
            count == present,
            spec_u64_to_le_bytes(count) == bytes@.subrange(0, 8),
            opts@.len() == i,
            read.len() == 1 + 7 * i,
            read[0] == count,
            word_bytes(read) == bytes@.subrange(0, 8 * (1 + 7 * i)),
            forall|k: int|
                #![trigger read[k]]
                1 <= k < 1 + 7 * i ==> read[k] == opt_words(opts@[(k - 1) / 7])[(k - 1) % 7],
        decreases present - i,
    {
        let mut group: [u64; 7] = [0; 7];
        let ghost before = read;
        let mut j: usize = 0;
        while j < 7
            invariant
                j <= 7,
                i < present,
                words == 1 + 7 * present,
                len == bytes@.len(),
                len == 8 * words,
                read.len() == 1 + 7 * i + j,
                before.len() == 1 + 7 * i,
                forall|k: int| #![trigger read[k]] 0 <= k < before.len() ==> read[k] == before[k],
                word_bytes(read) == bytes@.subrange(0, 8 * (1 + 7 * i + j)),
                forall|k: int|
                    #![trigger group@[k]]
                    0 <= k < j ==> group@[k] == read[1 + 7 * i + k] && spec_u64_to_le_bytes(group@[k])
                        == bytes@.subrange(8 * (1 + 7 * i + k), 8 * (1 + 7 * i + k) + 8),
            decreases 7 - j,
        {
            let at: usize = 1 + 7 * i + j;
            let word = read_word(bytes, at);
            group[j] = word;
            proof {
                lemma_word_bytes_push(read, word);
                read = read.push(word);
                assert(word_bytes(read) =~= bytes@.subrange(0, 8 * (1 + 7 * i + j + 1)));
            }
            j = j + 1;
        }
        match from_words(&group) {
            Some(opt) => {
                let ghost earlier = opts@;
                opts.push(opt);
                proof {
                    assert forall|k: int|
                        #![trigger read[k]]
                        1 <= k < 1 + 7 * (i + 1) implies read[k] == opt_words(opts@[(k - 1) / 7])[(k - 1) % 7] by {
                        if k < 1 + 7 * i {
                            assert(read[k] == before[k]);
                            assert((k - 1) / 7 < i);
                            assert(opts@[(k - 1) / 7] == earlier[(k - 1) / 7]);
                        } else {
                            let m = k - 1 - 7 * i;
                            assert((k - 1) / 7 == i && (k - 1) % 7 == m);
                            assert(group@[m] == read[1 + 7 * i + m]);
                        }
                    }
                }
            }
            None => {
                assert forall|v: Seq<Opt>| bytes@ != #[trigger] stored(v) by {
                    if bytes@ == stored(v) {
                        lemma_stored_word(v, bytes@, 0, count);
                        assert(v.len() == present);
                        assert forall|m: int| 0 <= m < 7 implies #[trigger] group@[m] == opt_words(v[i as int])[m] by {
                            let k = 1 + 7 * i + m;
                            assert((k - 1) / 7 == i && (k - 1) % 7 == m);
                            lemma_stored_word(v, bytes@, k, group@[m]);
                        }
                        assert(opt_words(v[i as int]) =~= group@);
                    }
                }
                return None;
            }
        }
        i = i + 1;
    }
    proof {
        assert(read =~= opts_words(opts@));
        assert(bytes@.subrange(0, len as int) =~= bytes@);
    }
    Some(opts)
}

/// A stored plan reads back as it was, and only as that: different plans are
/// stored differently.
pub proof fn law_stored_plans_are_distinct(a: Seq<Opt>, b: Seq<Opt>)
    requires
        stored(a) == stored(b),
        a.len() <= u64::MAX,
        b.len() <= u64::MAX,
    ensures
        a == b,
{
    lemma_auto_spec_u64_to_from_le_bytes();
    let bytes = stored(a);
    assert(bytes.len() == 8 * opts_words(a).len());
    assert(stored(b).len() == 8 * opts_words(b).len());
    assert(a.len() == b.len());
    assert forall|i: int| 0 <= i < a.len() implies #[trigger] a[i] == b[i] by {
        assert forall|m: int| 0 <= m < 7 implies #[trigger] opt_words(a[i])[m] == opt_words(b[i])[m] by {
            let k = 1 + 7 * i + m;
            assert((k - 1) / 7 == i && (k - 1) % 7 == m);
            let word = opts_words(a)[k];
            assert forall|p: int| 0 <= p < 8 implies #[trigger] spec_u64_to_le_bytes(word)[p] == bytes.subrange(
                8 * k,
                8 * k + 8,
            )[p] by {
                assert((8 * k + p) / 8 == k && (8 * k + p) % 8 == p);
            }
            assert(spec_u64_to_le_bytes(word) =~= bytes.subrange(8 * k, 8 * k + 8));
            lemma_stored_word(b, bytes, k, word);
        }
        lemma_opt_words_injective(a[i], b[i]);
    }
    assert(a =~= b);
}

proof fn lemma_opt_words_injective(x: Opt, y: Opt)
    requires
        forall|m: int| 0 <= m < 7 ==> #[trigger] opt_words(x)[m] == opt_words(y)[m],
    ensures
        x == y,
{
    let a = opt_words(x);
    let b = opt_words(y);
    assert(a[0] == b[0] && a[1] == b[1] && a[2] == b[2] && a[3] == b[3] && a[4] == b[4] && a[5] == b[5] && a[6]
        == b[6]);
}

// ---------------------------------------------------------------------------
// Candidates
// ---------------------------------------------------------------------------

/// Whether a candidate does more than a thousand times the work of the
/// leanest one so far, which `least` keeps, this one counted. A candidate
/// whose work is not known is never bloated and changes nothing.
pub fn bloated(least: &mut u64, compute_ops: Option<u64>) -> (bloat: bool)
    ensures
        match compute_ops {
            None => !bloat && *final(least) == *old(least),
            Some(ops) => {
                &&& *final(least) == if ops < *old(least) {
                    ops
                } else {
                    *old(least)
                }
                &&& bloat == (ops > 1000 * *final(least))
            },
        },
{
    match compute_ops {
        None => false,
        Some(ops) => {
            if ops < *least {
                *least = ops;
            }
            if *least > u64::MAX / 1000 {
                false
            } else {
                ops > 1000 * *least
            }
        }
    }
}

} // verus!
