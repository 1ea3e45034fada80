//! What each operation of the controller asks of the file tree, in order,
//! and how the answers decide its result. Each predicate takes the events
//! an operation added to the log and the operation's outcome.
use vstd::prelude::*;

use crate::attr::Attribute;
use crate::error::{fault_kind, ErrorKind, Failure};
use crate::paths::{
    attr_path, attr_paths, online_list, present_list, siblings_path, switch_paths,
};
use crate::range::cpu_list;
use crate::text::{decimal_text, trimmed};
use crate::tree::{acknowledged, is_read_of, is_write_of, write_run, FsEvent};

verus! {

/// What a read of a CPU list yields: the ids, or the kind of failure.
pub open spec fn list_outcome(e: FsEvent) -> Result<Seq<usize>, ErrorKind> {
    match e->contents {
        Err(f) => Err(fault_kind(f)),
        Ok(t) => match cpu_list(t) {
            Some(l) => Ok(l),
            None => Err(ErrorKind::Parse),
        },
    }
}

/// `d` is one read of the CPU list at `path`, and `v` what it yields.
pub open spec fn list_read(d: Seq<FsEvent>, path: Seq<char>, v: Result<Seq<usize>, Failure>) -> bool {
    &&& d.len() == 1
    &&& is_read_of(d[0], path)
    &&& v == match list_outcome(d[0]) {
        Ok(l) => Ok::<Seq<usize>, Failure>(l),
        Err(k) => Err((k, path)),
    }
}

/// What a read of an attribute yields as a `T`, from its trimmed text.
pub open spec fn attr_reading<T: Attribute>(e: FsEvent) -> Option<T::V> {
    match e->contents {
        Ok(t) => T::decoded(trimmed(t)),
        Err(_) => None,
    }
}

/// How a read that yields no value ends an operation.
pub open spec fn read_failure(e: FsEvent) -> Failure {
    match e->contents {
        Err(f) => (fault_kind(f), e->path),
        Ok(_) => (ErrorKind::Parse, e->path),
    }
}

/// `d` is one read of attribute `name` of CPU `id`, and `v` what it yields.
pub open spec fn single_read<T: Attribute>(
    d: Seq<FsEvent>,
    id: usize,
    name: Seq<char>,
    v: Result<T::V, Failure>,
) -> bool {
    &&& d.len() == 1
    &&& is_read_of(d[0], attr_path(id, name))
    &&& v == match attr_reading::<T>(d[0]) {
        Some(x) => Ok::<T::V, Failure>(x),
        None => Err(read_failure(d[0])),
    }
}

/// `d` is one write of `data` to `path`, and `v` its outcome.
pub open spec fn single_write(
    d: Seq<FsEvent>,
    path: Seq<char>,
    data: Seq<char>,
    v: Result<(), Failure>,
) -> bool {
    write_run(d, seq![path], data, v) && d.len() == 1
}

/// A fan-out write of `data` to attribute `name`: the online list is read
/// once, then every CPU it names is written in turn, fail-fast.
pub open spec fn set_all(d: Seq<FsEvent>, name: Seq<char>, data: Seq<char>, v: Result<(), Failure>) -> bool {
    &&& d.len() >= 1
    &&& is_read_of(d[0], online_list())
    &&& match list_outcome(d[0]) {
        Err(k) => d.len() == 1 && v == Err::<(), Failure>((k, online_list())),
        Ok(cpus) => write_run(d.drop_first(), attr_paths(cpus, name), data, v),
    }
}

/// `d` is a fail-fast run of reads of `paths` as `T` values: in order, each
/// yielding a value until the first that yields none, which ends the run.
pub open spec fn read_run<T: Attribute>(d: Seq<FsEvent>, paths: Seq<Seq<char>>) -> bool {
    &&& d.len() <= paths.len()
    &&& forall|j: int| 0 <= j < d.len() ==> is_read_of(#[trigger] d[j], paths[j])
    &&& forall|j: int| 0 <= j < d.len() - 1 ==> (#[trigger] attr_reading::<T>(d[j])) is Some
    &&& d.len() < paths.len() ==> d.len() > 0 && attr_reading::<T>(d.last()) is None
}

/// The run `d` read all `n` paths, each yielding a value.
pub open spec fn read_run_complete<T: Attribute>(d: Seq<FsEvent>, n: nat) -> bool {
    d.len() == n && forall|j: int| 0 <= j < d.len() ==> (#[trigger] attr_reading::<T>(d[j])) is Some
}

/// The values that the reads of `d` yielded, in order.
pub open spec fn attr_values<T: Attribute>(d: Seq<FsEvent>) -> Seq<T::V> {
    d.map_values(|e: FsEvent| attr_reading::<T>(e)->0)
}

/// CPU `cpus[j]` mapped to `vals[j]`; for a CPU listed twice, the later value.
pub open spec fn readings<V>(cpus: Seq<usize>, vals: Seq<V>) -> Map<usize, V>
    decreases cpus.len(),
{
    if cpus.len() == 0 {
        Map::empty()
    } else {
        readings(cpus.drop_last(), vals).insert(cpus.last(), vals[cpus.len() - 1])
    }
}

/// A fan-out read of attribute `name` as `T`: the online list is read once,
/// then each CPU it names in turn, fail-fast; on success, each listed CPU
/// maps to its value.
pub open spec fn get_all<T: Attribute>(
    d: Seq<FsEvent>,
    name: Seq<char>,
    v: Result<Map<usize, T::V>, Failure>,
) -> bool {
    &&& d.len() >= 1
    &&& is_read_of(d[0], online_list())
    &&& match list_outcome(d[0]) {
        Err(k) => d.len() == 1 && v == Err::<Map<usize, T::V>, Failure>((k, online_list())),
        Ok(cpus) => {
            &&& read_run::<T>(d.drop_first(), attr_paths(cpus, name))
            &&& v == if read_run_complete::<T>(d.drop_first(), cpus.len()) {
                Ok::<Map<usize, T::V>, Failure>(readings(cpus, attr_values::<T>(d.drop_first())))
            } else {
                Err(read_failure(d.last()))
            }
        },
    }
}

/// Readings depend only on the values at the listed positions.
pub proof fn lemma_readings_prefix<V>(cpus: Seq<usize>, a: Seq<V>, b: Seq<V>)
    requires
        forall|j: int| 0 <= j < cpus.len() ==> a[j] == b[j],
    ensures
        readings(cpus, a) == readings(cpus, b),
    decreases cpus.len(),
{
    if cpus.len() > 0 {
        lemma_readings_prefix(cpus.drop_last(), a, b);
    }
}

/// A fan-out read reports exactly the CPUs of the online list it read
/// first: the keys of its readings are the members of that list.
pub proof fn lemma_readings_keys<V>(cpus: Seq<usize>, vals: Seq<V>)
    ensures
        readings(cpus, vals).dom() == cpus.to_set(),
    decreases cpus.len(),
{
    if cpus.len() == 0 {
        assert(cpus.to_set() =~= Set::<usize>::empty());
    } else {
        lemma_readings_keys(cpus.drop_last(), vals);
        assert(cpus.to_set() =~= cpus.drop_last().to_set().insert(cpus.last())) by {
            assert forall|c: usize| cpus.to_set().contains(c) implies cpus.drop_last().to_set().insert(
                cpus.last(),
            ).contains(c) by {
                let j = choose|j: int| 0 <= j < cpus.len() && cpus[j] == c;
                if j < cpus.len() - 1 {
                    assert(cpus.drop_last()[j] == c);
                }
            }
            assert forall|c: usize| cpus.drop_last().to_set().insert(cpus.last()).contains(
                c,
            ) implies cpus.to_set().contains(c) by {
                if c != cpus.last() {
                    let j = choose|j: int| 0 <= j < cpus.drop_last().len() && cpus.drop_last()[j] == c;
                    assert(cpus[j] == c);
                } else {
                    assert(cpus[cpus.len() - 1] == c);
                }
            }
        }
    }
}

/// `cpus` without CPU 0, which bulk switching leaves alone.
pub open spec fn without_boot(cpus: Seq<usize>) -> Seq<usize>
    decreases cpus.len(),
{
    if cpus.len() == 0 {
        cpus
    } else if cpus.last() == 0 {
        without_boot(cpus.drop_last())
    } else {
        without_boot(cpus.drop_last()).push(cpus.last())
    }
}

/// A bulk hotplug switch: the present list is read once, then `data` is
/// written, fail-fast, to the hotplug switch of each listed CPU but CPU 0.
pub open spec fn switch_all(d: Seq<FsEvent>, data: Seq<char>, v: Result<(), Failure>) -> bool {
    &&& d.len() >= 1
    &&& is_read_of(d[0], present_list())
    &&& match list_outcome(d[0]) {
        Err(k) => d.len() == 1 && v == Err::<(), Failure>((k, present_list())),
        Ok(cpus) => write_run(d.drop_first(), switch_paths(without_boot(cpus)), data, v),
    }
}

/// `first`, and if it succeeds, `rest` after it; the outcome is that of the
/// step that failed, or success.
pub open spec fn then(
    d: Seq<FsEvent>,
    v: Result<(), Failure>,
    first: spec_fn(Seq<FsEvent>, Result<(), Failure>) -> bool,
    rest: spec_fn(Seq<FsEvent>, Result<(), Failure>) -> bool,
) -> bool {
    ||| (first(d, v) && v is Err)
    ||| exists|k: int| 0 <= k <= d.len() && first(d.take(k), Ok(())) && rest(#[trigger] d.skip(k), v)
}

/// Pinning every online CPU to `data`: the set speed, then the upper bound,
/// then the lower bound, each a fan-out write; the first failure ends it.
pub open spec fn set_point(d: Seq<FsEvent>, data: Seq<char>, v: Result<(), Failure>) -> bool {
    then(
        d,
        v,
        |d: Seq<FsEvent>, v: Result<(), Failure>| set_all(d, "scaling_setspeed"@, data, v),
        |d: Seq<FsEvent>, v: Result<(), Failure>|
            then(
                d,
                v,
                |d: Seq<FsEvent>, v: Result<(), Failure>| set_all(d, "scaling_max_freq"@, data, v),
                |d: Seq<FsEvent>, v: Result<(), Failure>| set_all(d, "scaling_min_freq"@, data, v),
            ),
    )
}

/// What a read of a sibling list yields: the second CPU it names.
pub open spec fn sibling_reading(e: FsEvent) -> Option<usize> {
    match e->contents {
        Ok(t) => match cpu_list(t) {
            Some(l) => if l.len() >= 2 {
                Some(l[1])
            } else {
                None
            },
            None => None,
        },
        Err(_) => None,
    }
}

/// `d` is a fail-fast run of reads of the sibling lists at `paths`.
pub open spec fn sibling_run(d: Seq<FsEvent>, paths: Seq<Seq<char>>) -> bool {
    &&& d.len() <= paths.len()
    &&& forall|j: int| 0 <= j < d.len() ==> is_read_of(#[trigger] d[j], paths[j])
    &&& forall|j: int| 0 <= j < d.len() - 1 ==> (#[trigger] sibling_reading(d[j])) is Some
    &&& d.len() < paths.len() ==> d.len() > 0 && sibling_reading(d.last()) is None
}

/// Every read of `d` yielded a sibling.
pub open spec fn siblings_found(d: Seq<FsEvent>) -> bool {
    forall|j: int| 0 <= j < d.len() ==> (#[trigger] sibling_reading(d[j])) is Some
}

/// The siblings that the reads of `d` yielded, in order.
pub open spec fn sibling_values(d: Seq<FsEvent>) -> Seq<usize> {
    d.map_values(|e: FsEvent| sibling_reading(e)->0)
}

/// The sibling list of each CPU of `cpus`, in order.
pub open spec fn siblings_paths(cpus: Seq<usize>) -> Seq<Seq<char>> {
    cpus.map_values(|c: usize| siblings_path(c))
}

/// `s` with each id kept at its first occurrence only.
pub open spec fn dedup(s: Seq<usize>) -> Seq<usize>
    decreases s.len(),
{
    if s.len() == 0 {
        s
    } else if dedup(s.drop_last()).contains(s.last()) {
        dedup(s.drop_last())
    } else {
        dedup(s.drop_last()).push(s.last())
    }
}

/// Disabling hyperthread siblings: the online list is read once; then each
/// listed CPU's sibling list, fail-fast, taking its second entry; then each
/// distinct such sibling is switched off, fail-fast, in first-seen order.
pub open spec fn siblings_off(d: Seq<FsEvent>, v: Result<(), Failure>) -> bool {
    &&& d.len() >= 1
    &&& is_read_of(d[0], online_list())
    &&& match list_outcome(d[0]) {
        Err(k) => d.len() == 1 && v == Err::<(), Failure>((k, online_list())),
        Ok(cpus) => {
            ||| {
                &&& sibling_run(d.drop_first(), siblings_paths(cpus))
                &&& !(d.len() == cpus.len() + 1 && siblings_found(d.drop_first()))
                &&& v == Err::<(), Failure>(read_failure(d.last()))
            }
            ||| {
                let reads = d.subrange(1, cpus.len() + 1 as int);
                &&& cpus.len() + 1 <= d.len()
                &&& sibling_run(reads, siblings_paths(cpus))
                &&& siblings_found(reads)
                &&& write_run(
                    d.skip(cpus.len() + 1 as int),
                    switch_paths(dedup(sibling_values(reads))),
                    "0"@,
                    v,
                )
            }
        },
    }
}

/// The largest of `s`, which is not empty.
pub open spec fn seq_max(s: Seq<u64>) -> u64
    decreases s.len(),
{
    if s.len() <= 1 {
        s[0]
    } else if seq_max(s.drop_last()) >= s.last() {
        seq_max(s.drop_last())
    } else {
        s.last()
    }
}

/// The smallest of `s`, which is not empty.
pub open spec fn seq_min(s: Seq<u64>) -> u64
    decreases s.len(),
{
    if s.len() <= 1 {
        s[0]
    } else if seq_min(s.drop_last()) <= s.last() {
        seq_min(s.drop_last())
    } else {
        s.last()
    }
}

/// Setting every online CPU's bounds to the extremes of `l`, CPU 0's
/// available frequencies: the upper bounds, then the lower bounds.
pub open spec fn bounds_from(d: Seq<FsEvent>, l: Seq<u64>, v: Result<(), Failure>) -> bool {
    then(
        d,
        v,
        |d: Seq<FsEvent>, v: Result<(), Failure>|
            set_all(d, "scaling_max_freq"@, decimal_text(seq_max(l) as nat), v),
        |d: Seq<FsEvent>, v: Result<(), Failure>|
            set_all(d, "scaling_min_freq"@, decimal_text(seq_min(l) as nat), v),
    )
}

/// The default operating point: all present CPUs on, the `schedutil`
/// governor everywhere, then one read of CPU 0's available frequencies, and
/// each CPU's bounds at their extremes; the first failure ends it.
pub open spec fn reset_steps(d: Seq<FsEvent>, v: Result<(), Failure>) -> bool {
    then(
        d,
        v,
        |d: Seq<FsEvent>, v: Result<(), Failure>| switch_all(d, "1"@, v),
        |d: Seq<FsEvent>, v: Result<(), Failure>|
            then(
                d,
                v,
                |d: Seq<FsEvent>, v: Result<(), Failure>|
                    set_all(d, "scaling_governor"@, "schedutil"@, v),
                |d: Seq<FsEvent>, v: Result<(), Failure>|
                    {
                        ||| exists|f: Failure|
                            single_read::<Vec<u64>>(
                                d,
                                0,
                                "scaling_available_frequencies"@,
                                Err(f),
                            ) && v == Err::<(), Failure>(f)
                        ||| exists|k: int, l: Seq<u64>|
                            0 <= k <= d.len() && l.len() > 0 && single_read::<Vec<u64>>(
                                d.take(k),
                                0,
                                "scaling_available_frequencies"@,
                                Ok(l),
                            ) && #[trigger] bounds_from(d.skip(k), l, v)
                    },
            ),
    )
}

/// After a fan-out write succeeds, every CPU of the online list `cpus` that
/// it read first has an acknowledged write of exactly `data` to its
/// attribute `name`.
pub proof fn lemma_set_all_covers_online(
    d: Seq<FsEvent>,
    name: Seq<char>,
    data: Seq<char>,
    cpus: Seq<usize>,
)
    requires
        set_all(d, name, data, Ok(())),
        list_outcome(d[0]) == Ok::<Seq<usize>, ErrorKind>(cpus),
    ensures
        forall|c: usize|
            cpus.contains(c) ==> exists|j: int|
                1 <= j < d.len() && is_write_of(#[trigger] d[j], attr_path(c, name), data)
                    && acknowledged(d[j]),
{
    let w = d.drop_first();
    assert forall|c: usize| cpus.contains(c) implies exists|j: int|
        1 <= j < d.len() && is_write_of(#[trigger] d[j], attr_path(c, name), data) && acknowledged(
            d[j],
        ) by {
        let i = choose|i: int| 0 <= i < cpus.len() && cpus[i] == c;
        assert(w.len() == cpus.len());
        assert(is_write_of(w[i], attr_paths(cpus, name)[i], data));
        assert(d[i + 1] == w[i]);
        if i < w.len() - 1 {
            assert(acknowledged(w[i]));
        }
    }
}

/// After `reset` succeeds, its events are, in order: a successful bulk
/// switch-on; a successful fan-out write of the `schedutil` governor; a
/// successful read of CPU 0's available frequencies `l`, which is not
/// empty; and successful fan-out writes of the largest of `l` as every
/// CPU's upper bound and of its smallest as every CPU's lower bound.
#[verifier::rlimit(40)]
pub proof fn lemma_reset_sets_defaults(d: Seq<FsEvent>)
    requires
        reset_steps(d, Ok(())),
    ensures
        exists|a: int, b: int, c: int, e: int, l: Seq<u64>|
            #![trigger d.subrange(a, b), d.subrange(b, c), d.subrange(c, e), l.len()]
            {
                &&& 0 <= a <= b <= c <= e <= d.len()
                &&& switch_all(d.subrange(0, a), "1"@, Ok(()))
                &&& set_all(d.subrange(a, b), "scaling_governor"@, "schedutil"@, Ok(()))
                &&& single_read::<Vec<u64>>(
                    d.subrange(b, c),
                    0,
                    "scaling_available_frequencies"@,
                    Ok(l),
                )
                &&& l.len() > 0
                &&& set_all(
                    d.subrange(c, e),
                    "scaling_max_freq"@,
                    decimal_text(seq_max(l) as nat),
                    Ok(()),
                )
                &&& set_all(
                    d.subrange(e, d.len() as int),
                    "scaling_min_freq"@,
                    decimal_text(seq_min(l) as nat),
                    Ok(()),
                )
            },
{
    let k1 = choose|k: int|
        0 <= k <= d.len() && switch_all(d.take(k), "1"@, Ok(())) && then(
            #[trigger] d.skip(k),
            Ok(()),
            |d: Seq<FsEvent>, v: Result<(), Failure>|
                set_all(d, "scaling_governor"@, "schedutil"@, v),
            |d: Seq<FsEvent>, v: Result<(), Failure>|
                {
                    ||| exists|f: Failure|
                        single_read::<Vec<u64>>(
                            d,
                            0,
                            "scaling_available_frequencies"@,
                            Err(f),
                        ) && v == Err::<(), Failure>(f)
                    ||| exists|k: int, l: Seq<u64>|
                        0 <= k <= d.len() && l.len() > 0 && single_read::<Vec<u64>>(
                            d.take(k),
                            0,
                            "scaling_available_frequencies"@,
                            Ok(l),
                        ) && #[trigger] bounds_from(d.skip(k), l, v)
                },
        );
    let d1 = d.skip(k1);
    let k2 = choose|k: int|
        0 <= k <= d1.len() && set_all(d1.take(k), "scaling_governor"@, "schedutil"@, Ok(())) && {
            ||| exists|f: Failure|
                single_read::<Vec<u64>>(
                    #[trigger] d1.skip(k),
                    0,
                    "scaling_available_frequencies"@,
                    Err(f),
                ) && Ok::<(), Failure>(()) == Err::<(), Failure>(f)
            ||| exists|k3: int, l: Seq<u64>|
                0 <= k3 <= d1.skip(k).len() && l.len() > 0 && single_read::<Vec<u64>>(
                    d1.skip(k).take(k3),
                    0,
                    "scaling_available_frequencies"@,
                    Ok(l),
                ) && #[trigger] bounds_from(d1.skip(k).skip(k3), l, Ok(()))
        };
    let d2 = d1.skip(k2);
    let (k3, l) = choose|k3: int, l: Seq<u64>|
        0 <= k3 <= d2.len() && l.len() > 0 && single_read::<Vec<u64>>(
            d2.take(k3),
            0,
            "scaling_available_frequencies"@,
            Ok(l),
        ) && #[trigger] bounds_from(d2.skip(k3), l, Ok(()));
    let d3 = d2.skip(k3);
    let k4 = choose|k: int|
        0 <= k <= d3.len() && set_all(
            d3.take(k),
            "scaling_max_freq"@,
            decimal_text(seq_max(l) as nat),
            Ok(()),
        ) && set_all(
            #[trigger] d3.skip(k),
            "scaling_min_freq"@,
            decimal_text(seq_min(l) as nat),
            Ok(()),
        );
    let a = k1;
    let b = k1 + k2;
    let c = b + k3;
    let e = c + k4;
    assert(d.subrange(0, a) =~= d.take(k1));
    assert(d.subrange(a, b) =~= d1.take(k2));
    assert(d.subrange(b, c) =~= d2.take(k3));
    assert(d.subrange(c, e) =~= d3.take(k4));
    assert(d.subrange(e, d.len() as int) =~= d3.skip(k4));
}

} // verus!
