//! Where each attribute lives, relative to the root of the cpu tree.
use vstd::prelude::*;

use crate::text::{decimal_text, push_decimal};

verus! {

/// The list of CPUs that are online.
pub open spec fn online_list() -> Seq<char> {
    "online"@
}

/// The list of CPUs that the hardware has.
pub open spec fn present_list() -> Seq<char> {
    "present"@
}

/// The directory of CPU `id`.
pub open spec fn cpu_dir(id: usize) -> Seq<char> {
    "cpu"@ + decimal_text(id as nat)
}

/// Attribute `name` of CPU `id`'s frequency scaling.
pub open spec fn attr_path(id: usize, name: Seq<char>) -> Seq<char> {
    cpu_dir(id) + "/cpufreq/"@ + name
}

/// The hotplug switch of CPU `id`.
pub open spec fn switch_path(id: usize) -> Seq<char> {
    cpu_dir(id) + "/online"@
}

/// The list of CPUs that share CPU `id`'s core.
pub open spec fn siblings_path(id: usize) -> Seq<char> {
    cpu_dir(id) + "/topology/thread_siblings_list"@
}

/// Attribute `name` for each CPU of `cpus`, in order.
pub open spec fn attr_paths(cpus: Seq<usize>, name: Seq<char>) -> Seq<Seq<char>> {
    cpus.map_values(|c: usize| attr_path(c, name))
}

/// The hotplug switch of each CPU of `cpus`, in order.
pub open spec fn switch_paths(cpus: Seq<usize>) -> Seq<Seq<char>> {
    cpus.map_values(|c: usize| switch_path(c))
}

fn cpu_dir_of(id: usize) -> (r: String)
    ensures
        r@ == cpu_dir(id),
{
    let mut s = String::from_str("cpu");
    push_decimal(&mut s, id as u64);
    s
}

pub fn attr_path_of(id: usize, name: &str) -> (r: String)
    ensures
        r@ == attr_path(id, name@),
{
    let mut s = cpu_dir_of(id);
    s.append("/cpufreq/");
    s.append(name);
    s
}

pub fn switch_path_of(id: usize) -> (r: String)
    ensures
        r@ == switch_path(id),
{
    let mut s = cpu_dir_of(id);
    s.append("/online");
    s
}

pub fn siblings_path_of(id: usize) -> (r: String)
    ensures
        r@ == siblings_path(id),
{
    let mut s = cpu_dir_of(id);
    s.append("/topology/thread_siblings_list");
    s
}

} // verus!
