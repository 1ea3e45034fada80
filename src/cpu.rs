//! The controller: queries and bulk operations over the cpu tree.
use vstd::prelude::*;

use crate::attr::{lemma_freq_list_nonempty, Attribute};
use crate::error::{fault_kind, CpuFreqError, ErrorKind, Failure};
use crate::paths::{
    attr_path, attr_path_of, attr_paths, online_list, siblings_path_of, switch_path,
    switch_path_of, switch_paths,
};
use crate::protocol::{
    attr_reading, attr_values, bounds_from, dedup, get_all, lemma_readings_keys,
    lemma_readings_prefix, list_outcome, list_read, read_failure, read_run, read_run_complete,
    readings, reset_steps, seq_max, seq_min, set_all, set_point, sibling_reading, sibling_values,
    siblings_found, siblings_off, siblings_paths, single_read, single_write, switch_all,
    without_boot,
};
use crate::range::parse_range;
use crate::text::{decimal_string, decimal_text, same_text, trim, trimmed};
use crate::tree::{
    extends, is_read_of, lemma_extends_push, lemma_extends_refl, lemma_extends_trans, lemma_split_steps, since,
    write_run, CpuFreq, FsEvent, FsFault,
};
use std::collections::HashMap;

verus! {

/// The outcome of an operation, on views.
pub open spec fn outcome<T: View>(r: Result<T, CpuFreqError>) -> Result<T::V, Failure> {
    match r {
        Ok(x) => Ok(x@),
        Err(e) => Err((e.kind, e.path@)),
    }
}

/// What a read returned, on views.
pub open spec fn contents_of(r: Result<String, FsFault>) -> Result<
    Seq<char>,
    FsFault,
> {
    match r {
        Ok(s) => Ok(s@),
        Err(f) => Err(f),
    }
}

/// The outcome of a fan-out read, on views.
pub open spec fn map_outcome<T: View>(r: Result<HashMap<usize, T>, CpuFreqError>) -> Result<
    Map<usize, T::V>,
    Failure,
> {
    match r {
        Ok(m) => Ok(m@.map_values(|x: T| x@)),
        Err(e) => Err((e.kind, e.path@)),
    }
}

/// The texts of `v`, in order.
pub open spec fn texts(v: Seq<String>) -> Seq<Seq<char>> {
    v.map_values(|s: String| s@)
}

/// The scaling drivers the controller is known to work with.
pub open spec fn known_driver(name: Seq<char>) -> bool {
    name == "acpi-cpufreq"@ || name == "intel-pstate"@
}

/// Whether `name`, as read from CPU 0's `scaling_driver`, is a known driver.
pub fn is_known_driver(name: &str) -> (r: bool)
    ensures
        r == known_driver(name@),
{
    same_text(name, "acpi-cpufreq") || same_text(name, "intel-pstate")
}

fn contains_id(v: &Vec<usize>, x: usize) -> (r: bool)
    ensures
        r == v@.contains(x),
{
    let mut i: usize = 0;
    while i < v.len()
        invariant
            i <= v@.len(),
            forall|j: int| 0 <= j < i ==> v@[j] != x,
        decreases v@.len() - i,
    {
        if v[i] == x {
            assert(v@[i as int] == x);
            return true;
        }
        i = i + 1;
    }
    false
}

/// The largest of `v`.
pub fn max_of(v: &Vec<u64>) -> (r: u64)
    requires
        v@.len() > 0,
    ensures
        r == seq_max(v@),
{
    let mut best = v[0];
    let mut i: usize = 1;
    assert(v@.take(1) =~= seq![v@[0]]);
    while i < v.len()
        invariant
            1 <= i <= v@.len(),
            best == seq_max(v@.take(i as int)),
        decreases v@.len() - i,
    {
        assert(v@.take(i + 1).drop_last() =~= v@.take(i as int));
        if v[i] > best {
            best = v[i];
        }
        i = i + 1;
    }
    assert(v@.take(i as int) =~= v@);
    best
}

/// The smallest of `v`.
pub fn min_of(v: &Vec<u64>) -> (r: u64)
    requires
        v@.len() > 0,
    ensures
        r == seq_min(v@),
{
    let mut best = v[0];
    let mut i: usize = 1;
    assert(v@.take(1) =~= seq![v@[0]]);
    while i < v.len()
        invariant
            1 <= i <= v@.len(),
            best == seq_min(v@.take(i as int)),
        decreases v@.len() - i,
    {
        assert(v@.take(i + 1).drop_last() =~= v@.take(i as int));
        if v[i] < best {
            best = v[i];
        }
        i = i + 1;
    }
    assert(v@.take(i as int) =~= v@);
    best
}

/// Whether the running system, named as `std::env::consts::OS` names it,
/// is supported: only Linux is.
pub fn platform_outcome(os: &str) -> (r: Result<(), CpuFreqError>)
    ensures
        r is Ok <==> os@ == "linux"@,
        r is Err ==> r->Err_0.kind == ErrorKind::UnsupportedPlatform && r->Err_0.path@ == Seq::<
            char,
        >::empty(),
{
    if same_text(os, "linux") {
        Ok(())
    } else {
        Err(CpuFreqError { kind: ErrorKind::UnsupportedPlatform, path: String::new() })
    }
}

/// What the read of CPU 0's `scaling_driver` decides: success exactly when
/// the file was read and its trimmed text is a known driver; otherwise the
/// read's fault, or `UnsupportedDriver`, on that file.
pub fn driver_outcome(got: Result<String, FsFault>) -> (r: Result<(), CpuFreqError>)
    ensures
        r is Ok <==> (got is Ok && known_driver(trimmed(got->Ok_0@))),
        got is Ok && !known_driver(trimmed(got->Ok_0@)) ==> r->Err_0.kind
            == ErrorKind::UnsupportedDriver,
        got is Err ==> r->Err_0.kind == fault_kind(got->Err_0),
        r is Err ==> r->Err_0.path@ == attr_path(0, "scaling_driver"@),
{
    let path = attr_path_of(0, "scaling_driver");
    match got {
        Err(f) => Err(CpuFreqError::from_fault(f, path.as_str())),
        Ok(text) => {
            if is_known_driver(trim(text.as_str())) {
                Ok(())
            } else {
                Err(CpuFreqError::at(ErrorKind::UnsupportedDriver, path.as_str()))
            }
        },
    }
}

/// A controller bound to a cpu file tree.
pub struct CPU<F: CpuFreq> {
    tree: F,
    log: Ghost<Seq<FsEvent>>,
}

impl<F: CpuFreq> CPU<F> {
    /// Every request made of the tree so far, in order, with its outcome.
    pub closed spec fn events(&self) -> Seq<FsEvent> {
        self.log@
    }

    /// Binds a controller to `tree`, after checking that CPU 0's active
    /// scaling driver, read from `cpu0/cpufreq/scaling_driver`, is known.
    /// That one read is the only request made; `driver_outcome` says how what
    /// it returned decides the result.
    pub fn new(tree: F) -> (r: Result<CPU<F>, CpuFreqError>)
        ensures
            r is Ok ==> {
                let e = r->Ok_0.events();
                &&& e.len() == 1
                &&& is_read_of(e[0], attr_path(0, "scaling_driver"@))
                &&& e[0]->contents is Ok
                &&& known_driver(trimmed(e[0]->contents->Ok_0))
            },
            r is Err ==> {
                &&& r->Err_0.path@ == attr_path(0, "scaling_driver"@)
                &&& r->Err_0.kind == ErrorKind::Io || r->Err_0.kind == ErrorKind::Encoding
                    || r->Err_0.kind == ErrorKind::UnsupportedDriver
            },
    {
        let mut cpu = CPU { tree, log: Ghost(Seq::empty()) };
        let path = attr_path_of(0, "scaling_driver");
        let got = cpu.read(path.as_str());
        match driver_outcome(got) {
            Ok(()) => Ok(cpu),
            Err(e) => Err(e),
        }
    }

    /// The file tree the controller works on.
    pub fn tree(&self) -> &F {
        &self.tree
    }

    /// Gives the file tree back.
    pub fn into_tree(self) -> F {
        self.tree
    }

    fn read(&mut self, path: &str) -> (r: Result<String, FsFault>)
        ensures
            final(self).events() == old(self).events().push(
                FsEvent::Read { path: path@, contents: contents_of(r) },
            ),
            extends(final(self).events(), old(self).events()),
            since(final(self).events(), old(self).events()) == seq![
                FsEvent::Read { path: path@, contents: contents_of(r) },
            ],
    {
        let r = self.tree.read_file(path);
        self.log = Ghost(self.log@.push(FsEvent::Read { path: path@, contents: contents_of(r) }));
        proof {
            lemma_extends_push(old(self).events(), self.events().last());
        }
        r
    }

    fn write(&mut self, path: &str, data: &str) -> (r: Result<(), FsFault>)
        ensures
            final(self).events() == old(self).events().push(
                FsEvent::Write { target: path@, data: data@, status: r },
            ),
            extends(final(self).events(), old(self).events()),
            since(final(self).events(), old(self).events()) == seq![
                FsEvent::Write { target: path@, data: data@, status: r },
            ],
    {
        let r = self.tree.write_file(path, data);
        self.log = Ghost(self.log@.push(FsEvent::Write { target: path@, data: data@, status: r }));
        proof {
            lemma_extends_push(old(self).events(), self.events().last());
        }
        r
    }

    /// Reads and expands the CPU list at `path`, such as `online` or
    /// `present`.
    pub fn get_ranges(&mut self, path: &str) -> (r: Result<Vec<usize>, CpuFreqError>)
        ensures
            extends(final(self).events(), old(self).events()),
            list_read(since(final(self).events(), old(self).events()), path@, outcome(r)),
    {
        let got = self.read(path);
        let r = match got {
            Err(f) => Err(CpuFreqError::from_fault(f, path)),
            Ok(text) => match parse_range(text.as_str()) {
                Ok(l) => Ok(l),
                Err(_) => Err(CpuFreqError::at(ErrorKind::Parse, path)),
            },
        };
        r
    }

    /// Reads attribute `name` of CPU `id` as a `T`, from its trimmed text.
    pub fn get_variable<T: Attribute>(&mut self, id: usize, name: &str) -> (r: Result<
        T,
        CpuFreqError,
    >)
        ensures
            extends(final(self).events(), old(self).events()),
            single_read::<T>(
                since(final(self).events(), old(self).events()),
                id,
                name@,
                outcome(r),
            ),
    {
        let path = attr_path_of(id, name);
        let got = self.read(path.as_str());
        let r = match got {
            Err(f) => Err(CpuFreqError::from_fault(f, path.as_str())),
            Ok(text) => match T::decode(trim(text.as_str())) {
                Some(x) => Ok(x),
                None => Err(CpuFreqError::at(ErrorKind::Parse, path.as_str())),
            },
        };
        r
    }

    /// Writes `data` to attribute `name` of CPU `id`. Success means only that
    /// the write was accepted; nothing is read back.
    pub fn set_variable(&mut self, id: usize, name: &str, data: &str) -> (r: Result<
        (),
        CpuFreqError,
    >)
        ensures
            extends(final(self).events(), old(self).events()),
            single_write(
                since(final(self).events(), old(self).events()),
                attr_path(id, name@),
                data@,
                outcome(r),
            ),
    {
        let path = attr_path_of(id, name);
        self.write_one(path.as_str(), data)
    }

    fn write_one(&mut self, path: &str, data: &str) -> (r: Result<(), CpuFreqError>)
        ensures
            extends(final(self).events(), old(self).events()),
            single_write(since(final(self).events(), old(self).events()), path@, data@, outcome(r)),
    {
        let got = self.write(path, data);
        let r = match got {
            Err(_) => Err(CpuFreqError::at(ErrorKind::Io, path)),
            Ok(()) => Ok(()),
        };
        r
    }

    /// Writes `data` to each of `paths` in order, stopping at the first failure.
    fn write_each(&mut self, paths: &Vec<String>, data: &str) -> (r: Result<(), CpuFreqError>)
        ensures
            extends(final(self).events(), old(self).events()),
            write_run(
                since(final(self).events(), old(self).events()),
                texts(paths@),
                data@,
                outcome(r),
            ),
    {
        let ghost start = self.events();
        let mut i: usize = 0;
        proof {
            lemma_extends_refl(start);
        }
        while i < paths.len()
            invariant
                start == old(self).events(),
                i <= paths@.len(),
                extends(self.events(), start),
                since(self.events(), start).len() == i,
                forall|j: int|
                    0 <= j < i ==> crate::tree::is_write_of(
                        #[trigger] since(self.events(), start)[j],
                        texts(paths@)[j],
                        data@,
                    ),
                forall|j: int|
                    0 <= j < i ==> crate::tree::acknowledged(
                        #[trigger] since(self.events(), start)[j],
                    ),
            decreases paths@.len() - i,
        {
            let ghost prev = self.events();
            let got = self.write(paths[i].as_str(), data);
            proof {
                lemma_extends_trans(start, prev, self.events());
            }
            match got {
                Err(_) => {
                    let e = CpuFreqError::at(ErrorKind::Io, paths[i].as_str());
                    return Err(e);
                },
                Ok(()) => {},
            }
            i = i + 1;
        }
        Ok(())
    }

    /// Reads attribute `name` of each of `cpus` in order, stopping at the first
    /// failure.
    fn read_each<T: Attribute>(&mut self, cpus: &Vec<usize>, name: &str) -> (r: Result<
        HashMap<usize, T>,
        CpuFreqError,
    >)
        ensures
            extends(final(self).events(), old(self).events()),
            read_run::<T>(since(final(self).events(), old(self).events()), attr_paths(cpus@, name@)),
            map_outcome(r) == if read_run_complete::<T>(
                since(final(self).events(), old(self).events()),
                cpus@.len(),
            ) {
                Ok::<Map<usize, T::V>, Failure>(
                    readings(cpus@, attr_values::<T>(since(final(self).events(), old(self).events()))),
                )
            } else {
                Err(read_failure(final(self).events().last()))
            },
    {
        broadcast use vstd::std_specs::hash::group_hash_axioms;

        let ghost start = self.events();
        let ghost paths = attr_paths(cpus@, name@);
        let mut out: HashMap<usize, T> = HashMap::new();
        let mut i: usize = 0;
        proof {
            lemma_extends_refl(start);
            assert(out@.map_values(|x: T| x@) =~= readings(cpus@.take(0), attr_values::<T>(since(self.events(), start))));
        }
        while i < cpus.len()
            invariant
                start == old(self).events(),
                paths == attr_paths(cpus@, name@),
                i <= cpus@.len(),
                extends(self.events(), start),
                since(self.events(), start).len() == i,
                forall|j: int| 0 <= j < i ==> is_read_of(#[trigger] since(self.events(), start)[j], paths[j]),
                forall|j: int| 0 <= j < i ==> (#[trigger] attr_reading::<T>(since(self.events(), start)[j])) is Some,
                out@.map_values(|x: T| x@) == readings(cpus@.take(i as int), attr_values::<T>(since(self.events(), start))),
            decreases cpus@.len() - i,
        {
            let ghost prev = self.events();
            let path = attr_path_of(cpus[i], name);
            let got = self.read(path.as_str());
            proof {
                lemma_extends_trans(start, prev, self.events());
            }
            let ghost d = since(self.events(), start);
            let x = match got {
                Err(f) => {
                    return Err(CpuFreqError::from_fault(f, path.as_str()));
                },
                Ok(text) => match T::decode(trim(text.as_str())) {
                    Some(x) => x,
                    None => {
                        return Err(CpuFreqError::at(ErrorKind::Parse, path.as_str()));
                    },
                },
            };
            let ghost before = out@;
            out.insert(cpus[i], x);
            proof {
                let vals = attr_values::<T>(d);
                let pvals = attr_values::<T>(since(prev, start));
                assert(cpus@.take(i + 1).drop_last() =~= cpus@.take(i as int));
                lemma_readings_prefix(cpus@.take(i as int), pvals, vals);
                assert(out@.map_values(|x: T| x@) =~= before.map_values(|x: T| x@).insert(cpus@[i as int], x@));
            }
            i = i + 1;
        }
        proof {
            assert(cpus@.take(i as int) =~= cpus@);
        }
        Ok(out)
    }

    /// Reads attribute `name` as a `T` for every online CPU: the online list is
    /// read once, then each CPU it names in turn. The first failure ends the
    /// operation, and what was read before it is dropped. On success the
    /// result has exactly the listed CPUs as keys.
    pub fn get_variable_all<T: Attribute>(&mut self, name: &str) -> (r: Result<
        HashMap<usize, T>,
        CpuFreqError,
    >)
        ensures
            extends(final(self).events(), old(self).events()),
            get_all::<T>(since(final(self).events(), old(self).events()), name@, map_outcome(r)),
            r is Ok ==> r->Ok_0@.dom() == list_outcome(since(final(self).events(), old(self).events())[0])->Ok_0.to_set(),
    {
        let cpus = match self.get_ranges("online") {
            Ok(l) => l,
            Err(e) => {
                return Err(e);
            },
        };
        let ghost mid = self.events();
        let r = self.read_each::<T>(&cpus, name);
        proof {
            lemma_extends_trans(old(self).events(), mid, self.events());
            let d = since(self.events(), old(self).events());
            assert(d.drop_first() =~= since(self.events(), mid));
            assert(d[0] == since(mid, old(self).events())[0]);
            lemma_readings_keys(cpus@, attr_values::<T>(d.drop_first()));
            if r is Ok {
                assert(r->Ok_0@.dom() =~= r->Ok_0@.map_values(|x: T| x@).dom());
            }
        }
        r
    }

    /// The CPUs that are online, from the top-level `online` list.
    pub fn online(&mut self) -> (r: Result<Vec<usize>, CpuFreqError>)
        ensures
            extends(final(self).events(), old(self).events()),
            list_read(since(final(self).events(), old(self).events()), online_list(), outcome(r)),
    {
        self.get_ranges("online")
    }

    /// The governor of every online CPU.
    pub fn governors(&mut self) -> (r: Result<HashMap<usize, String>, CpuFreqError>)
        ensures
            extends(final(self).events(), old(self).events()),
            get_all::<String>(
                since(final(self).events(), old(self).events()),
                "scaling_governor"@,
                map_outcome(r),
            ),
    {
        self.get_variable_all::<String>("scaling_governor")
    }

    /// The current frequency, in kHz, of every online CPU.
    pub fn frequencies(&mut self) -> (r: Result<HashMap<usize, u64>, CpuFreqError>)
        ensures
            extends(final(self).events(), old(self).events()),
            get_all::<u64>(
                since(final(self).events(), old(self).events()),
                "scaling_cur_freq"@,
                map_outcome(r),
            ),
    {
        self.get_variable_all::<u64>("scaling_cur_freq")
    }

    /// The upper frequency bound, in kHz, of every online CPU.
    pub fn max_frequencies(&mut self) -> (r: Result<HashMap<usize, u64>, CpuFreqError>)
        ensures
            extends(final(self).events(), old(self).events()),
            get_all::<u64>(
                since(final(self).events(), old(self).events()),
                "scaling_max_freq"@,
                map_outcome(r),
            ),
    {
        self.get_variable_all::<u64>("scaling_max_freq")
    }

    /// The lower frequency bound, in kHz, of every online CPU.
    pub fn min_frequencies(&mut self) -> (r: Result<HashMap<usize, u64>, CpuFreqError>)
        ensures
            extends(final(self).events(), old(self).events()),
            get_all::<u64>(
                since(final(self).events(), old(self).events()),
                "scaling_min_freq"@,
                map_outcome(r),
            ),
    {
        self.get_variable_all::<u64>("scaling_min_freq")
    }

    /// The frequencies, in kHz, that every online CPU offers.
    pub fn available_frequencies(&mut self) -> (r: Result<HashMap<usize, Vec<u64>>, CpuFreqError>)
        ensures
            extends(final(self).events(), old(self).events()),
            get_all::<Vec<u64>>(
                since(final(self).events(), old(self).events()),
                "scaling_available_frequencies"@,
                map_outcome(r),
            ),
    {
        self.get_variable_all::<Vec<u64>>("scaling_available_frequencies")
    }

    /// Sets the governor of every online CPU to `gov`. The name is not
    /// checked here: the kernel refuses one it does not offer.
    pub fn set_governors(&mut self, gov: &str) -> (r: Result<(), CpuFreqError>)
        ensures
            extends(final(self).events(), old(self).events()),
            set_all(since(final(self).events(), old(self).events()), "scaling_governor"@, gov@, outcome(r)),
    {
        self.set_variable_all("scaling_governor", gov)
    }

    /// Sets the upper frequency bound of every online CPU to `freq` kHz.
    pub fn set_max_frequencies(&mut self, freq: u64) -> (r: Result<(), CpuFreqError>)
        ensures
            extends(final(self).events(), old(self).events()),
            set_all(
                since(final(self).events(), old(self).events()),
                "scaling_max_freq"@,
                decimal_text(freq as nat),
                outcome(r),
            ),
    {
        let data = decimal_string(freq);
        self.set_variable_all("scaling_max_freq", data.as_str())
    }

    /// Sets the lower frequency bound of every online CPU to `freq` kHz.
    pub fn set_min_frequencies(&mut self, freq: u64) -> (r: Result<(), CpuFreqError>)
        ensures
            extends(final(self).events(), old(self).events()),
            set_all(
                since(final(self).events(), old(self).events()),
                "scaling_min_freq"@,
                decimal_text(freq as nat),
                outcome(r),
            ),
    {
        let data = decimal_string(freq);
        self.set_variable_all("scaling_min_freq", data.as_str())
    }

    /// Pins every online CPU to `freq` kHz: the set speed, the upper bound
    /// and the lower bound, in that order.
    pub fn set_frequencies(&mut self, freq: u64) -> (r: Result<(), CpuFreqError>)
        ensures
            extends(final(self).events(), old(self).events()),
            set_point(
                since(final(self).events(), old(self).events()),
                decimal_text(freq as nat),
                outcome(r),
            ),
    {
        let data = decimal_string(freq);
        let ghost s0 = self.events();
        let r1 = self.set_variable_all("scaling_setspeed", data.as_str());
        if r1.is_err() {
            return r1;
        }
        let ghost s1 = self.events();
        let r2 = self.set_variable_all("scaling_max_freq", data.as_str());
        if r2.is_err() {
            proof {
                lemma_split_steps(s0, s1, self.events());
            }
            return r2;
        }
        let ghost s2 = self.events();
        let r3 = self.set_variable_all("scaling_min_freq", data.as_str());
        proof {
            lemma_split_steps(s1, s2, self.events());
            lemma_split_steps(s0, s1, self.events());
        }
        r3
    }

    /// Switches CPU `id` on by writing `1` to its hotplug switch.
    pub fn enable(&mut self, id: usize) -> (r: Result<(), CpuFreqError>)
        ensures
            extends(final(self).events(), old(self).events()),
            single_write(since(final(self).events(), old(self).events()), switch_path(id), "1"@, outcome(r)),
    {
        let path = switch_path_of(id);
        self.write_one(path.as_str(), "1")
    }

    /// Switches CPU `id` off by writing `0` to its hotplug switch.
    pub fn disable(&mut self, id: usize) -> (r: Result<(), CpuFreqError>)
        ensures
            extends(final(self).events(), old(self).events()),
            single_write(since(final(self).events(), old(self).events()), switch_path(id), "0"@, outcome(r)),
    {
        let path = switch_path_of(id);
        self.write_one(path.as_str(), "0")
    }

    /// Writes `data` to the hotplug switch of every present CPU but CPU 0.
    fn switch_each(&mut self, data: &str) -> (r: Result<(), CpuFreqError>)
        ensures
            extends(final(self).events(), old(self).events()),
            switch_all(since(final(self).events(), old(self).events()), data@, outcome(r)),
    {
        let cpus = match self.get_ranges("present") {
            Ok(l) => l,
            Err(e) => {
                return Err(e);
            },
        };
        let ghost mid = self.events();
        let mut paths: Vec<String> = Vec::new();
        let mut i: usize = 0;
        while i < cpus.len()
            invariant
                i <= cpus@.len(),
                texts(paths@) == switch_paths(without_boot(cpus@.take(i as int))),
            decreases cpus@.len() - i,
        {
            assert(cpus@.take(i + 1).drop_last() =~= cpus@.take(i as int));
            if cpus[i] != 0 {
                let ghost before = paths@;
                let p = switch_path_of(cpus[i]);
                paths.push(p);
                assert(texts(paths@) =~= texts(before).push(p@));
                assert(switch_paths(without_boot(cpus@.take(i + 1))) =~= switch_paths(
                    without_boot(cpus@.take(i as int)),
                ).push(switch_path(cpus@[i as int])));
            }
            i = i + 1;
        }
        assert(cpus@.take(i as int) =~= cpus@);
        let r = self.write_each(&paths, data);
        proof {
            lemma_extends_trans(old(self).events(), mid, self.events());
            assert(since(self.events(), old(self).events()).drop_first() =~= since(self.events(), mid));
        }
        r
    }

    /// Switches on every present CPU but CPU 0, in the order the present list
    /// gives; the first failure ends it, leaving CPUs already switched on.
    pub fn enable_all(&mut self) -> (r: Result<(), CpuFreqError>)
        ensures
            extends(final(self).events(), old(self).events()),
            switch_all(since(final(self).events(), old(self).events()), "1"@, outcome(r)),
    {
        self.switch_each("1")
    }

    /// Switches off every present CPU but CPU 0, in the order the present
    /// list gives; the first failure ends it, leaving CPUs already switched off.
    pub fn disable_all(&mut self) -> (r: Result<(), CpuFreqError>)
        ensures
            extends(final(self).events(), old(self).events()),
            switch_all(since(final(self).events(), old(self).events()), "0"@, outcome(r)),
    {
        self.switch_each("0")
    }

    /// Switches off the hyperthread sibling of every online CPU: the online
    /// list is read once; each listed CPU's sibling list is read and its
    /// second entry taken; then each distinct sibling is switched off, in
    /// the order first seen. A sibling list with fewer than two entries is
    /// an error. The first failure ends it, leaving CPUs already switched off.
    pub fn disable_hyperthread(&mut self) -> (r: Result<(), CpuFreqError>)
        ensures
            extends(final(self).events(), old(self).events()),
            siblings_off(since(final(self).events(), old(self).events()), outcome(r)),
    {
        let cpus = match self.get_ranges("online") {
            Ok(l) => l,
            Err(e) => {
                return Err(e);
            },
        };
        let ghost mid = self.events();
        let ghost paths = siblings_paths(cpus@);
        let mut seconds: Vec<usize> = Vec::new();
        let mut i: usize = 0;
        proof {
            lemma_extends_refl(mid);
            assert(seconds@ =~= dedup(sibling_values(since(mid, mid))));
        }
        while i < cpus.len()
            invariant
                extends(mid, old(self).events()),
                list_read(since(mid, old(self).events()), online_list(), Ok(cpus@)),
                paths == siblings_paths(cpus@),
                i <= cpus@.len(),
                extends(self.events(), mid),
                since(self.events(), mid).len() == i,
                forall|j: int| 0 <= j < i ==> is_read_of(#[trigger] since(self.events(), mid)[j], paths[j]),
                siblings_found(since(self.events(), mid)),
                seconds@ == dedup(sibling_values(since(self.events(), mid))),
            decreases cpus@.len() - i,
        {
            let ghost prev = self.events();
            let path = siblings_path_of(cpus[i]);
            let got = self.read(path.as_str());
            proof {
                lemma_extends_trans(mid, prev, self.events());
            }
            let ghost run = since(self.events(), mid);
            let found: Result<usize, CpuFreqError> = match got {
                Err(f) => Err(CpuFreqError::from_fault(f, path.as_str())),
                Ok(text) => match parse_range(text.as_str()) {
                    Ok(l) => {
                        if l.len() >= 2 {
                            Ok(l[1])
                        } else {
                            Err(CpuFreqError::at(ErrorKind::Parse, path.as_str()))
                        }
                    },
                    Err(_) => Err(CpuFreqError::at(ErrorKind::Parse, path.as_str())),
                },
            };
            assert(run.last() == self.events().last());
            match found {
                Err(e) => {
                    proof {
                        lemma_extends_trans(old(self).events(), mid, self.events());
                        let d = since(self.events(), old(self).events());
                        assert(d.drop_first() =~= run);
                        assert(d[0] == since(mid, old(self).events())[0]);
                        assert(sibling_reading(run.last()) is None);
                    }
                    return Err(e);
                },
                Ok(sib) => {
                    proof {
                        assert(since(prev, mid) =~= run.drop_last());
                        assert(sibling_values(run) =~= sibling_values(run.drop_last()).push(sib));
                        assert(sibling_values(run).drop_last() =~= sibling_values(run.drop_last()));
                    }
                    if !contains_id(&seconds, sib) {
                        seconds.push(sib);
                    }
                },
            }
            i = i + 1;
        }
        let ghost reads_end = self.events();
        let mut targets: Vec<String> = Vec::new();
        let mut k: usize = 0;
        while k < seconds.len()
            invariant
                k <= seconds@.len(),
                texts(targets@) == switch_paths(seconds@.take(k as int)),
            decreases seconds@.len() - k,
        {
            let ghost before = targets@;
            let p = switch_path_of(seconds[k]);
            targets.push(p);
            assert(texts(targets@) =~= texts(before).push(p@));
            assert(seconds@.take(k + 1) =~= seconds@.take(k as int).push(seconds@[k as int]));
            assert(switch_paths(seconds@.take(k + 1)) =~= switch_paths(seconds@.take(k as int)).push(
                switch_path(seconds@[k as int]),
            ));
            k = k + 1;
        }
        assert(seconds@.take(k as int) =~= seconds@);
        let r = self.write_each(&targets, "0");
        proof {
            lemma_extends_trans(mid, reads_end, self.events());
            lemma_extends_trans(old(self).events(), mid, self.events());
            let d = since(self.events(), old(self).events());
            let n = cpus@.len() as int;
            assert(d[0] == since(mid, old(self).events())[0]);
            assert(d.subrange(1, n + 1) =~= since(reads_end, mid));
            assert(d.skip(n + 1) =~= since(self.events(), reads_end));
        }
        r
    }

    /// Sets every online CPU's upper and lower bounds to the largest and
    /// smallest of `list`.
    fn apply_bounds(&mut self, list: &Vec<u64>) -> (r: Result<(), CpuFreqError>)
        requires
            list@.len() > 0,
        ensures
            extends(final(self).events(), old(self).events()),
            bounds_from(since(final(self).events(), old(self).events()), list@, outcome(r)),
    {
        let hi = max_of(list);
        let lo = min_of(list);
        let ghost t0 = self.events();
        let rm = self.set_max_frequencies(hi);
        if rm.is_err() {
            return rm;
        }
        let ghost t1 = self.events();
        let rn = self.set_min_frequencies(lo);
        proof {
            lemma_split_steps(t0, t1, self.events());
        }
        rn
    }

    /// Brings every CPU to the default operating point: all present CPUs on,
    /// the `schedutil` governor on every online CPU, then every online CPU's
    /// upper and lower bounds at the largest and smallest of the frequencies
    /// that CPU 0 offers, read from CPU 0 alone. The first failure ends it,
    /// leaving earlier steps applied.
    pub fn reset(&mut self) -> (r: Result<(), CpuFreqError>)
        ensures
            extends(final(self).events(), old(self).events()),
            reset_steps(since(final(self).events(), old(self).events()), outcome(r)),
    {
        let ghost s0 = self.events();
        let r1 = self.enable_all();
        if r1.is_err() {
            return r1;
        }
        let ghost s1 = self.events();
        let r2 = self.set_governors("schedutil");
        if r2.is_err() {
            proof {
                lemma_split_steps(s0, s1, self.events());
            }
            return r2;
        }
        let ghost s2 = self.events();
        let avail = self.get_variable::<Vec<u64>>(0, "scaling_available_frequencies");
        let ghost s3 = self.events();
        let ghost got = outcome(avail);
        let r = match avail {
            Err(e) => Err(e),
            Ok(list) => {
                proof {
                    lemma_freq_list_nonempty(trimmed(since(s3, s2)[0]->contents->Ok_0));
                }
                self.apply_bounds(&list)
            },
        };
        proof {
            if got is Ok {
                lemma_split_steps(s2, s3, self.events());
            } else {
                lemma_extends_refl(s3);
            }
            lemma_split_steps(s1, s2, self.events());
            lemma_split_steps(s0, s1, self.events());
            let d3 = since(self.events(), s2);
            match got {
                Err(f) => {
                    assert(d3 =~= since(s3, s2));
                    assert(single_read::<Vec<u64>>(d3, 0, "scaling_available_frequencies"@, Err(f)));
                },
                Ok(l) => {
                    let k3 = since(s3, s2).len() as int;
                    assert(single_read::<Vec<u64>>(
                        d3.take(k3),
                        0,
                        "scaling_available_frequencies"@,
                        Ok(l),
                    ));
                    assert(bounds_from(d3.skip(k3), l, outcome(r)));
                },
            }
        }
        r
    }

    /// Writes `data` to attribute `name` of every online CPU: the online list
    /// is read once, then each CPU it names is written in turn. The first
    /// failure ends the operation; CPUs already written stay written.
    pub fn set_variable_all(&mut self, name: &str, data: &str) -> (r: Result<(), CpuFreqError>)
        ensures
            extends(final(self).events(), old(self).events()),
            set_all(since(final(self).events(), old(self).events()), name@, data@, outcome(r)),
    {
        let cpus = match self.get_ranges("online") {
            Ok(l) => l,
            Err(e) => {
                return Err(e);
            },
        };
        let ghost mid = self.events();
        let mut paths: Vec<String> = Vec::new();
        let mut i: usize = 0;
        while i < cpus.len()
            invariant
                i <= cpus@.len(),
                texts(paths@) == attr_paths(cpus@.take(i as int), name@),
            decreases cpus@.len() - i,
        {
            let ghost before = paths@;
            let p = attr_path_of(cpus[i], name);
            paths.push(p);
            assert(texts(paths@) =~= texts(before).push(p@));
            assert(cpus@.take(i + 1) =~= cpus@.take(i as int).push(cpus@[i as int]));
            assert(attr_paths(cpus@.take(i + 1), name@) =~= attr_paths(cpus@.take(i as int), name@).push(
                attr_path(cpus@[i as int], name@),
            ));
            i = i + 1;
        }
        assert(cpus@.take(i as int) =~= cpus@);
        let r = self.write_each(&paths, data);
        proof {
            lemma_extends_trans(old(self).events(), mid, self.events());
            assert(since(self.events(), old(self).events()).drop_first() =~= since(self.events(), mid));
        }
        r
    }
}

} // verus!
