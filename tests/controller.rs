use cpufreq::cpu::{driver_outcome, is_known_driver, max_of, min_of, platform_outcome};
use cpufreq::{CpuFreq, CpuFreqError, ErrorKind, FsFault, CPU};
use std::collections::{HashMap, HashSet};

/// An in-memory cpu tree that behaves like the kernel's for hotplug: the
/// top-level `online` list follows the per-CPU switches, and the cpufreq
/// attributes of an offline CPU are gone.
struct Kernel {
    files: HashMap<String, String>,
    online: Vec<bool>,
    online_text: Option<String>,
    fail_writes: HashSet<String>,
    encoding_faults: HashSet<String>,
    odd_write_faults: HashSet<String>,
    writes: Vec<(String, String)>,
}

fn cpu_of(path: &str) -> Option<usize> {
    let rest = path.strip_prefix("cpu")?;
    let digits: String = rest.chars().take_while(|c| c.is_ascii_digit()).collect();
    digits.parse().ok()
}

impl Kernel {
    /// `n` CPUs, all online; CPUs `2k` and `2k + 1` share a core.
    fn new(n: usize) -> Kernel {
        let mut files = HashMap::new();
        for id in 0..n {
            let f = |name: &str| format!("cpu{id}/cpufreq/{name}");
            files.insert(f("scaling_driver"), "acpi-cpufreq\n".to_string());
            files.insert(f("scaling_governor"), "performance\n".to_string());
            files.insert(f("scaling_cur_freq"), format!("{}\n", 1800000 + id));
            files.insert(f("scaling_max_freq"), "3000000\n".to_string());
            files.insert(f("scaling_min_freq"), "800000\n".to_string());
            files.insert(
                f("scaling_available_frequencies"),
                "2400000 3000000 1800000 800000 \n".to_string(),
            );
            files.insert(f("scaling_setspeed"), "<unsupported>\n".to_string());
            let first = id - id % 2;
            let second = if first + 1 < n { first + 1 } else { first };
            files.insert(
                format!("cpu{id}/topology/thread_siblings_list"),
                format!("{first},{second}\n"),
            );
        }
        Kernel {
            files,
            online: vec![true; n],
            online_text: None,
            fail_writes: HashSet::new(),
            encoding_faults: HashSet::new(),
            odd_write_faults: HashSet::new(),
            writes: Vec::new(),
        }
    }

    fn set(&mut self, path: &str, text: &str) {
        self.files.insert(path.to_string(), text.to_string());
    }

    fn get(&self, path: &str) -> String {
        self.files.get(path).unwrap().clone()
    }

    fn render_online(&self) -> String {
        let ids: Vec<String> = (0..self.online.len())
            .filter(|i| self.online[*i])
            .map(|i| i.to_string())
            .collect();
        format!("{}\n", ids.join(","))
    }

    fn gone(&self, path: &str) -> bool {
        match cpu_of(path) {
            Some(id) => id >= self.online.len() || (!self.online[id] && path.contains("/cpufreq/")),
            None => false,
        }
    }
}

impl CpuFreq for Kernel {
    fn read_file(&self, path: &str) -> Result<String, FsFault> {
        if self.encoding_faults.contains(path) {
            return Err(FsFault::Encoding);
        }
        if path == "online" {
            return Ok(self.online_text.clone().unwrap_or_else(|| self.render_online()));
        }
        if path == "present" {
            return Ok(format!("0-{}\n", self.online.len() - 1));
        }
        if self.gone(path) {
            return Err(FsFault::Io);
        }
        if let (Some(id), true) = (cpu_of(path), path.ends_with("/online")) {
            if id == 0 {
                return Err(FsFault::Io);
            }
            return Ok(if self.online[id] { "1\n" } else { "0\n" }.to_string());
        }
        self.files.get(path).cloned().ok_or(FsFault::Io)
    }

    fn write_file(&mut self, path: &str, data: &str) -> Result<(), FsFault> {
        self.writes.push((path.to_string(), data.to_string()));
        if self.odd_write_faults.contains(path) {
            return Err(FsFault::Encoding);
        }
        if self.fail_writes.contains(path) || self.gone(path) {
            return Err(FsFault::Io);
        }
        if let (Some(id), true) = (cpu_of(path), path.ends_with("/online")) {
            if id == 0 {
                return Err(FsFault::Io);
            }
            match data {
                "1" => self.online[id] = true,
                "0" => self.online[id] = false,
                _ => return Err(FsFault::Io),
            }
            return Ok(());
        }
        if self.files.contains_key(path) {
            self.files.insert(path.to_string(), data.to_string());
            Ok(())
        } else {
            Err(FsFault::Io)
        }
    }
}

fn controller(n: usize) -> CPU<Kernel> {
    CPU::new(Kernel::new(n)).unwrap()
}

fn sorted_online(cpu: &mut CPU<Kernel>) -> Vec<usize> {
    let mut v = cpu.online().unwrap();
    v.sort();
    v
}

fn expect_err<T>(r: Result<T, CpuFreqError>) -> CpuFreqError {
    match r {
        Ok(_) => panic!("expected an error"),
        Err(e) => e,
    }
}

#[test]
fn disable() {
    let mut cpu = controller(8);
    cpu.enable_all().unwrap();
    let online_before = cpu.online().unwrap();
    cpu.disable(1).unwrap();
    cpu.disable(4).unwrap();
    let online_after = cpu.online().unwrap();
    assert!(
        online_after.len() < online_before.len(),
        "{} should be less than {}",
        online_after.len(),
        online_before.len()
    );
    let mut x: Vec<&usize> = online_before
        .iter()
        .filter(|x| !online_after.contains(x))
        .collect();
    x.sort();
    assert_eq!(x.len(), 2);
    assert_eq!(*x[0], 1);
    assert_eq!(*x[1], 4);
    cpu.enable_all().unwrap();
}

#[test]
fn enable() {
    let mut cpu = controller(8);
    cpu.disable_all().unwrap();
    let online_before = cpu.online().unwrap();
    cpu.enable(1).unwrap();
    cpu.enable(4).unwrap();
    let online_after = cpu.online().unwrap();
    assert!(
        online_after.len() > online_before.len(),
        "{} should be less than {}",
        online_after.len(),
        online_before.len()
    );
    let mut x: Vec<usize> = cpu.online().unwrap();
    x.sort();
    assert_eq!(x.len(), 3);
    assert_eq!(x[0], 0);
    assert_eq!(x[1], 1);
    assert_eq!(x[2], 4);
    cpu.enable_all().unwrap();
}

#[test]
fn hyperthread() {
    let mut cpu = controller(8);
    cpu.enable_all().unwrap();
    cpu.disable_hyperthread().unwrap();
}

#[test]
fn reset() {
    let mut cpu = controller(8);
    cpu.reset().unwrap();
}

#[test]
fn new_accepts_known_drivers_only() {
    let mut k = Kernel::new(2);
    k.set("cpu0/cpufreq/scaling_driver", "intel-pstate\n");
    assert!(CPU::new(k).is_ok());

    let mut k = Kernel::new(2);
    k.set("cpu0/cpufreq/scaling_driver", "amd-pstate\n");
    let e = expect_err(CPU::new(k));
    assert_eq!(e.kind, ErrorKind::UnsupportedDriver);
    assert_eq!(e.path, "cpu0/cpufreq/scaling_driver");

    let mut k = Kernel::new(2);
    k.files.remove("cpu0/cpufreq/scaling_driver");
    let e = expect_err(CPU::new(k));
    assert_eq!(e.kind, ErrorKind::Io);
    assert_eq!(e.path, "cpu0/cpufreq/scaling_driver");

    assert!(is_known_driver("acpi-cpufreq"));
    assert!(!is_known_driver("acpi-cpufreq\n"));
}

#[test]
fn online_follows_the_list() {
    let mut cpu = controller(4);
    assert_eq!(cpu.online().unwrap(), vec![0, 1, 2, 3]);
    cpu.disable(2).unwrap();
    assert_eq!(cpu.online().unwrap(), vec![0, 1, 3]);
}

#[test]
fn fan_out_read_keys_are_the_online_set() {
    let mut cpu = controller(6);
    cpu.disable(3).unwrap();
    let online: HashSet<usize> = cpu.online().unwrap().into_iter().collect();
    let govs = cpu.governors().unwrap();
    let keys: HashSet<usize> = govs.keys().copied().collect();
    assert_eq!(keys, online);
    assert_eq!(govs[&0], "performance");

    let mut k = Kernel::new(4);
    k.online_text = Some("0-2,1\n".to_string());
    let mut cpu = CPU::new(k).unwrap();
    let freqs = cpu.frequencies().unwrap();
    let keys: HashSet<usize> = freqs.keys().copied().collect();
    assert_eq!(keys, [0, 1, 2].into_iter().collect());
    assert_eq!(freqs[&2], 1800002);
}

#[test]
fn frequency_queries_read_distinct_attributes() {
    let mut k = Kernel::new(2);
    k.set("cpu1/cpufreq/scaling_max_freq", "2900000\n");
    k.set("cpu1/cpufreq/scaling_min_freq", "900000\n");
    let mut cpu = CPU::new(k).unwrap();
    let cur = cpu.frequencies().unwrap();
    let max = cpu.max_frequencies().unwrap();
    let min = cpu.min_frequencies().unwrap();
    assert_eq!(cur[&1], 1800001);
    assert_eq!(max[&1], 2900000);
    assert_eq!(min[&1], 900000);
    assert_eq!(max[&0], 3000000);
    assert_eq!(min[&0], 800000);
}

#[test]
fn available_frequencies_are_parsed() {
    let mut cpu = controller(2);
    let avail = cpu.available_frequencies().unwrap();
    assert_eq!(avail[&1], vec![2400000, 3000000, 1800000, 800000]);

    let mut k = Kernel::new(2);
    k.set("cpu1/cpufreq/scaling_available_frequencies", "2400000 fast\n");
    let mut cpu = CPU::new(k).unwrap();
    let e = expect_err(cpu.available_frequencies());
    assert_eq!(e.kind, ErrorKind::Parse);
    assert_eq!(e.path, "cpu1/cpufreq/scaling_available_frequencies");
}

#[test]
fn set_all_then_read_back() {
    let mut cpu = controller(4);
    let before = cpu.online().unwrap();
    cpu.set_variable_all("scaling_governor", "powersave").unwrap();
    for id in before {
        let g: String = cpu.get_variable(id, "scaling_governor").unwrap();
        assert_eq!(g, "powersave");
    }
}

#[test]
fn set_all_stops_at_first_failure() {
    let mut k = Kernel::new(5);
    k.fail_writes.insert("cpu2/cpufreq/scaling_governor".to_string());
    let mut cpu = CPU::new(k).unwrap();
    let e = expect_err(cpu.set_variable_all("scaling_governor", "powersave"));
    assert_eq!(e.kind, ErrorKind::Io);
    assert_eq!(e.path, "cpu2/cpufreq/scaling_governor");
    let k = cpu.into_tree();
    let targets: Vec<&str> = k.writes.iter().map(|(p, _)| p.as_str()).collect();
    assert_eq!(
        targets,
        vec![
            "cpu0/cpufreq/scaling_governor",
            "cpu1/cpufreq/scaling_governor",
            "cpu2/cpufreq/scaling_governor"
        ]
    );
    assert_eq!(k.get("cpu0/cpufreq/scaling_governor"), "powersave");
    assert_eq!(k.get("cpu1/cpufreq/scaling_governor"), "powersave");
    assert_eq!(k.get("cpu2/cpufreq/scaling_governor"), "performance\n");
    assert_eq!(k.get("cpu3/cpufreq/scaling_governor"), "performance\n");
    assert_eq!(k.get("cpu4/cpufreq/scaling_governor"), "performance\n");
}

#[test]
fn enable_and_disable_undo_each_other() {
    let mut cpu = controller(4);
    assert!(cpu.online().unwrap().contains(&3));
    cpu.disable(3).unwrap();
    assert!(!cpu.online().unwrap().contains(&3));
    cpu.enable(3).unwrap();
    assert!(cpu.online().unwrap().contains(&3));
    cpu.disable(3).unwrap();
    assert!(!cpu.online().unwrap().contains(&3));
}

#[test]
fn hyperthread_siblings_switched_off() {
    let mut cpu = controller(4);
    cpu.disable_hyperthread().unwrap();
    assert_eq!(sorted_online(&mut cpu), vec![0, 2]);
    let k = cpu.into_tree();
    let writes: Vec<(&str, &str)> = k
        .writes
        .iter()
        .map(|(p, d)| (p.as_str(), d.as_str()))
        .collect();
    assert_eq!(writes, vec![("cpu1/online", "0"), ("cpu3/online", "0")]);
}

#[test]
fn hyperthread_needs_two_siblings() {
    let mut k = Kernel::new(2);
    k.set("cpu1/topology/thread_siblings_list", "1\n");
    let mut cpu = CPU::new(k).unwrap();
    let e = expect_err(cpu.disable_hyperthread());
    assert_eq!(e.kind, ErrorKind::Parse);
    assert_eq!(e.path, "cpu1/topology/thread_siblings_list");
}

#[test]
fn reset_restores_defaults() {
    let mut cpu = controller(4);
    cpu.disable(3).unwrap();
    cpu.set_governors("performance").unwrap();
    cpu.set_frequencies(1800000).unwrap();
    cpu.reset().unwrap();
    assert_eq!(sorted_online(&mut cpu), vec![0, 1, 2, 3]);
    let govs = cpu.governors().unwrap();
    let max = cpu.max_frequencies().unwrap();
    let min = cpu.min_frequencies().unwrap();
    for id in 0..4 {
        assert_eq!(govs[&id], "schedutil");
        assert_eq!(max[&id], 3000000);
        assert_eq!(min[&id], 800000);
    }
}

#[test]
fn reset_needs_cpu0_frequencies() {
    let mut k = Kernel::new(2);
    k.files.remove("cpu0/cpufreq/scaling_available_frequencies");
    let mut cpu = CPU::new(k).unwrap();
    let e = expect_err(cpu.reset());
    assert_eq!(e.kind, ErrorKind::Io);
    assert_eq!(e.path, "cpu0/cpufreq/scaling_available_frequencies");
}

#[test]
fn reset_reads_only_cpu0_frequencies() {
    let mut k = Kernel::new(3);
    k.set("cpu2/cpufreq/scaling_available_frequencies", "garbage\n");
    k.set("cpu0/cpufreq/scaling_available_frequencies", "1000000 2000000\n");
    let mut cpu = CPU::new(k).unwrap();
    cpu.reset().unwrap();
    let k = cpu.into_tree();
    assert_eq!(k.get("cpu2/cpufreq/scaling_max_freq"), "2000000");
    assert_eq!(k.get("cpu2/cpufreq/scaling_min_freq"), "1000000");
}

#[test]
fn set_frequencies_pins_all_three() {
    let mut cpu = controller(2);
    cpu.set_frequencies(2300000).unwrap();
    let k = cpu.into_tree();
    for id in 0..2 {
        assert_eq!(k.get(&format!("cpu{id}/cpufreq/scaling_setspeed")), "2300000");
        assert_eq!(k.get(&format!("cpu{id}/cpufreq/scaling_max_freq")), "2300000");
        assert_eq!(k.get(&format!("cpu{id}/cpufreq/scaling_min_freq")), "2300000");
    }
    let order: Vec<&str> = k.writes.iter().map(|(p, _)| p.as_str()).collect();
    assert_eq!(
        order,
        vec![
            "cpu0/cpufreq/scaling_setspeed",
            "cpu1/cpufreq/scaling_setspeed",
            "cpu0/cpufreq/scaling_max_freq",
            "cpu1/cpufreq/scaling_max_freq",
            "cpu0/cpufreq/scaling_min_freq",
            "cpu1/cpufreq/scaling_min_freq"
        ]
    );
}

#[test]
fn bound_setters_write_one_attribute() {
    let mut cpu = controller(2);
    cpu.set_max_frequencies(2301000).unwrap();
    cpu.set_min_frequencies(900000).unwrap();
    let k = cpu.into_tree();
    assert_eq!(k.get("cpu1/cpufreq/scaling_max_freq"), "2301000");
    assert_eq!(k.get("cpu1/cpufreq/scaling_min_freq"), "900000");
    assert_eq!(k.get("cpu1/cpufreq/scaling_setspeed"), "<unsupported>\n");
}

#[test]
fn unknown_governor_surfaces_as_io_error() {
    let mut k = Kernel::new(2);
    k.fail_writes.insert("cpu0/cpufreq/scaling_governor".to_string());
    let mut cpu = CPU::new(k).unwrap();
    let e = expect_err(cpu.set_governors("nonexistent"));
    assert_eq!(e.kind, ErrorKind::Io);
    assert_eq!(e.path, "cpu0/cpufreq/scaling_governor");
}

#[test]
fn bulk_switch_skips_cpu0_and_stops_at_failure() {
    let mut k = Kernel::new(4);
    k.fail_writes.insert("cpu2/online".to_string());
    let mut cpu = CPU::new(k).unwrap();
    let e = expect_err(cpu.disable_all());
    assert_eq!(e.kind, ErrorKind::Io);
    assert_eq!(e.path, "cpu2/online");
    assert_eq!(sorted_online(&mut cpu), vec![0, 2, 3]);
    let k = cpu.into_tree();
    let targets: Vec<&str> = k.writes.iter().map(|(p, _)| p.as_str()).collect();
    assert_eq!(targets, vec!["cpu1/online", "cpu2/online"]);
}

#[test]
fn read_errors_name_the_file() {
    let mut k = Kernel::new(2);
    k.online_text = Some("0-x\n".to_string());
    let mut cpu = CPU::new(k).unwrap();
    let e = expect_err(cpu.online());
    assert_eq!(e.kind, ErrorKind::Parse);
    assert_eq!(e.path, "online");

    let mut k = Kernel::new(2);
    k.encoding_faults.insert("cpu1/cpufreq/scaling_governor".to_string());
    let mut cpu = CPU::new(k).unwrap();
    let e = expect_err(cpu.governors());
    assert_eq!(e.kind, ErrorKind::Encoding);
    assert_eq!(e.path, "cpu1/cpufreq/scaling_governor");

    let mut k = Kernel::new(2);
    k.set("cpu0/cpufreq/scaling_cur_freq", "fast\n");
    let mut cpu = CPU::new(k).unwrap();
    let e = expect_err(cpu.frequencies());
    assert_eq!(e.kind, ErrorKind::Parse);
    assert_eq!(e.path, "cpu0/cpufreq/scaling_cur_freq");

    let mut cpu = controller(2);
    let e = expect_err(cpu.get_variable::<u64>(7, "scaling_cur_freq"));
    assert_eq!(e.kind, ErrorKind::Io);
    assert_eq!(e.path, "cpu7/cpufreq/scaling_cur_freq");
}

#[test]
fn single_attribute_access() {
    let mut cpu = controller(2);
    let f: u64 = cpu.get_variable(1, "scaling_cur_freq").unwrap();
    assert_eq!(f, 1800001);
    cpu.set_variable(1, "scaling_max_freq", "2000000").unwrap();
    let m: u64 = cpu.get_variable(1, "scaling_max_freq").unwrap();
    assert_eq!(m, 2000000);
    let list: Vec<u64> = cpu.get_variable(0, "scaling_available_frequencies").unwrap();
    assert_eq!(list.len(), 4);
}

#[test]
fn extremes_of_a_list() {
    assert_eq!(max_of(&vec![2400000, 3000000, 800000]), 3000000);
    assert_eq!(min_of(&vec![2400000, 3000000, 800000]), 800000);
    assert_eq!(max_of(&vec![5]), 5);
}

#[test]
fn driver_outcome_decides_new() {
    assert!(driver_outcome(Ok("acpi-cpufreq\n".to_string())).is_ok());
    assert!(driver_outcome(Ok("  intel-pstate ".to_string())).is_ok());
    let e = driver_outcome(Ok("intel_pstate\n".to_string())).unwrap_err();
    assert_eq!(e.kind, ErrorKind::UnsupportedDriver);
    assert_eq!(e.path, "cpu0/cpufreq/scaling_driver");
    let e = driver_outcome(Err(FsFault::Io)).unwrap_err();
    assert_eq!(e.kind, ErrorKind::Io);
    assert_eq!(e.path, "cpu0/cpufreq/scaling_driver");
    let e = driver_outcome(Err(FsFault::Encoding)).unwrap_err();
    assert_eq!(e.kind, ErrorKind::Encoding);
    assert_eq!(e.path, "cpu0/cpufreq/scaling_driver");
}

#[test]
fn frequency_lists_split_on_any_whitespace() {
    let mut k = Kernel::new(2);
    k.set("cpu1/cpufreq/scaling_available_frequencies", "2400000  3000000\t800000 \n");
    let mut cpu = CPU::new(k).unwrap();
    let avail = cpu.available_frequencies().unwrap();
    assert_eq!(avail[&1], vec![2400000, 3000000, 800000]);

    let mut k = Kernel::new(2);
    k.set("cpu1/cpufreq/scaling_available_frequencies", " \n");
    let mut cpu = CPU::new(k).unwrap();
    let e = expect_err(cpu.available_frequencies());
    assert_eq!(e.kind, ErrorKind::Parse);
}

#[test]
fn a_failed_write_is_an_io_error() {
    let mut k = Kernel::new(3);
    k.odd_write_faults.insert("cpu1/cpufreq/scaling_max_freq".to_string());
    let mut cpu = CPU::new(k).unwrap();
    let e = expect_err(cpu.set_max_frequencies(2000000));
    assert_eq!(e.kind, ErrorKind::Io);
    assert_eq!(e.path, "cpu1/cpufreq/scaling_max_freq");
}

#[test]
fn values_may_carry_a_plus_sign() {
    let mut k = Kernel::new(1);
    k.set("cpu0/cpufreq/scaling_cur_freq", "+5\n");
    k.set("cpu0/cpufreq/scaling_available_frequencies", "+800000 3000000\n");
    let mut cpu = CPU::new(k).unwrap();
    let f: u64 = cpu.get_variable(0, "scaling_cur_freq").unwrap();
    assert_eq!(f, 5);
    let all = cpu.frequencies().unwrap();
    assert_eq!(all[&0], 5);
    let avail = cpu.available_frequencies().unwrap();
    assert_eq!(avail[&0], vec![800000, 3000000]);

    let mut k = Kernel::new(1);
    k.set("cpu0/cpufreq/scaling_cur_freq", "++5\n");
    let mut cpu = CPU::new(k).unwrap();
    let e = expect_err(cpu.get_variable::<u64>(0, "scaling_cur_freq"));
    assert_eq!(e.kind, ErrorKind::Parse);
}

#[test]
fn platform_gate() {
    assert!(platform_outcome("linux").is_ok());
    let e = platform_outcome("macos").unwrap_err();
    assert_eq!(e.kind, ErrorKind::UnsupportedPlatform);
    assert_eq!(e.path, "");
}

#[test]
fn any_list_file_can_be_read() {
    let mut cpu = controller(4);
    cpu.disable(2).unwrap();
    assert_eq!(cpu.get_ranges("present").unwrap(), vec![0, 1, 2, 3]);
    assert_eq!(cpu.get_ranges("online").unwrap(), vec![0, 1, 3]);
    let e = expect_err(cpu.get_ranges("cpu1/cpufreq/scaling_governor"));
    assert_eq!(e.kind, ErrorKind::Parse);
    assert_eq!(e.path, "cpu1/cpufreq/scaling_governor");
}
