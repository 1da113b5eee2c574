use svod_tensor::opt::{bloated, copy_opts, deserialize_opts, serialize_opts, Opt, OptArg, OptOps};

/// Every opt kind must survive the persistent-cache encoding unchanged.
#[test]
fn opts_survive_the_cache_encoding_roundtrip() {
    let every_kind = vec![
        Opt::upcast(0, 4),
        Opt::local(1, 16),
        Opt::unroll(0, 8),
        Opt::group(0, 4),
        Opt::grouptop(1, 8),
        Opt::thread(0, 4),
        Opt::padto(1, 32),
        Opt::swap(0, 2),
        Opt::tc(None, -1, 2, 1),
        Opt::nolocals(),
    ];
    for opts in [vec![], every_kind] {
        assert_eq!(deserialize_opts(&serialize_opts(&opts)), Some(opts));
    }
    assert_eq!(deserialize_opts(&[0xff; 3]), None, "a corrupt entry is not a plan");
}

/// The bloat filter folds `compute_ops` into the running minimum and only fires past a thousand-fold.
#[test]
fn bloated_is_a_thousand_fold_check() {
    let mut least = u64::MAX;
    assert!(!bloated(&mut least, Some(1000)));
    assert_eq!(least, 1000);
    assert!(!bloated(&mut least, Some(1_000_000)), "exactly a thousand-fold is still allowed");
    assert!(bloated(&mut least, Some(1_000_001)));
    let mut untouched = 5000;
    assert!(!bloated(&mut untouched, None));
    assert_eq!(untouched, 5000, "an unknown count must not lower the bar");
}

#[test]
fn a_vast_minimum_never_overflows_the_bloat_check() {
    let mut least = u64::MAX;
    assert!(!bloated(&mut least, Some(u64::MAX)));
    assert_eq!(least, u64::MAX);
    let mut zero = 7;
    assert!(!bloated(&mut zero, Some(0)));
    assert_eq!(zero, 0);
    assert!(bloated(&mut zero, Some(1)));
}

#[test]
fn stored_plans_differ_where_the_plans_do() {
    let plans = [
        vec![],
        vec![Opt::upcast(0, 4)],
        vec![Opt::upcast(0, 5)],
        vec![Opt::upcast(1, 4)],
        vec![Opt::local(0, 4)],
        vec![Opt::upcast(0, 4), Opt::upcast(0, 4)],
        vec![Opt::tc(Some(0), -1, 2, 1)],
        vec![Opt::tc(None, -1, 2, 1)],
        vec![Opt::tc(None, 0, 2, 1)],
    ];
    for (i, a) in plans.iter().enumerate() {
        for (j, b) in plans.iter().enumerate() {
            assert_eq!(serialize_opts(a) == serialize_opts(b), i == j);
        }
    }
}

#[test]
fn stored_plans_are_read_back_exactly_or_not_at_all() {
    let stored = serialize_opts(&vec![Opt::padto(1, 32), Opt::nolocals()]);
    for length in 0..stored.len() {
        if let Some(opts) = deserialize_opts(&stored[..length]) {
            assert_eq!(serialize_opts(&opts), stored[..length]);
            assert!(opts.len() < 2);
        }
    }
    let mut longer = stored.clone();
    longer.push(0);
    assert_eq!(deserialize_opts(&longer), None);
}

#[test]
fn opt_constructors_name_their_arguments() {
    assert_eq!(Opt::swap(3, 5), Opt::new(OptOps::SWAP, Some(3), OptArg::Swap { other_axis: 5 }));
    assert_eq!(Opt::thread(1, 2), Opt::new(OptOps::THREAD, Some(1), OptArg::Int(2)));
    assert_eq!(
        Opt::tc(Some(1), 4, 0, 2),
        Opt::new(OptOps::TC, Some(1), OptArg::TensorCore { tc_select: 4, opt_level: 0, use_tc: 2 })
    );
    assert_eq!(Opt::nolocals().op, OptOps::NOLOCALS);
    assert_eq!(Opt::nolocals().axis, None);
    let opts = vec![Opt::group(0, 4), Opt::grouptop(1, 8), Opt::unroll(2, 3)];
    assert_eq!(copy_opts(&opts), opts);
}
