//! The file tree that the controller reads and writes, and the record of
//! what it asked of it.
use vstd::prelude::*;

verus! {

/// Why the file tree could not serve a request.
#[derive(Debug, Clone, Copy, PartialEq, Eq, Structural)]
pub enum FsFault {
    /// The file is missing, access was refused, or the OS failed otherwise.
    Io,
    /// The file's bytes are not valid UTF-8.
    Encoding,
}

/// A tree of text files below a root, such as the kernel's cpu directory in
/// sysfs. Paths are relative to the root. The tree is outside the library's
/// control: another actor, or the kernel itself, may change any file at any
/// time, so nothing is assumed of what a read returns.
pub trait CpuFreq {
    /// The whole text of the file at `path`.
    fn read_file(&self, path: &str) -> Result<String, FsFault>;

    /// Writes exactly `data` to the file at `path`, with no newline added.
    /// The controller reports any fault of a write as an I/O error.
    fn write_file(&mut self, path: &str, data: &str) -> Result<(), FsFault>;
}

/// One request made of the file tree, with what came back.
pub enum FsEvent {
    Read { path: Seq<char>, contents: Result<Seq<char>, FsFault> },
    Write { target: Seq<char>, data: Seq<char>, status: Result<(), FsFault> },
}

/// `after` is `before` with more events appended.
pub open spec fn extends(after: Seq<FsEvent>, before: Seq<FsEvent>) -> bool {
    before.len() <= after.len() && after.subrange(0, before.len() as int) == before
}

/// The events of `after` that came after those of `before`.
pub open spec fn since(after: Seq<FsEvent>, before: Seq<FsEvent>) -> Seq<FsEvent> {
    after.subrange(before.len() as int, after.len() as int)
}

/// Appending one event extends the log.
pub proof fn lemma_extends_push(a: Seq<FsEvent>, e: FsEvent)
    ensures
        extends(a.push(e), a),
        since(a.push(e), a) == seq![e],
{
    assert(a.push(e).subrange(0, a.len() as int) =~= a);
    assert(since(a.push(e), a) =~= seq![e]);
}

/// A log extends itself, by nothing.
pub proof fn lemma_extends_refl(a: Seq<FsEvent>)
    ensures
        extends(a, a),
        since(a, a) == Seq::<FsEvent>::empty(),
{
    assert(a.subrange(0, a.len() as int) =~= a);
    assert(since(a, a) =~= Seq::<FsEvent>::empty());
}

/// Extension is transitive, and what was added comes in order.
pub proof fn lemma_extends_trans(a: Seq<FsEvent>, b: Seq<FsEvent>, c: Seq<FsEvent>)
    requires
        extends(b, a),
        extends(c, b),
    ensures
        extends(c, a),
        since(c, a) == since(b, a) + since(c, b),
{
    assert(c.subrange(0, a.len() as int) =~= b.subrange(0, a.len() as int));
    assert(since(c, a) =~= since(b, a) + since(c, b));
}

/// For two steps in turn, the events since `a` split, at the length of
/// those of the first step, into the events of each step.
pub proof fn lemma_split_steps(a: Seq<FsEvent>, b: Seq<FsEvent>, c: Seq<FsEvent>)
    requires
        extends(b, a),
        extends(c, b),
    ensures
        extends(c, a),
        since(c, a).take(since(b, a).len() as int) == since(b, a),
        since(c, a).skip(since(b, a).len() as int) == since(c, b),
{
    lemma_extends_trans(a, b, c);
    assert(since(c, a).take(since(b, a).len() as int) =~= since(b, a));
    assert(since(c, a).skip(since(b, a).len() as int) =~= since(c, b));
}

/// `e` is a read of `path`.
pub open spec fn is_read_of(e: FsEvent, path: Seq<char>) -> bool {
    e is Read && e->path == path
}

/// `e` is a write of `data` to `path`.
pub open spec fn is_write_of(e: FsEvent, path: Seq<char>, data: Seq<char>) -> bool {
    e is Write && e->target == path && e->data == data
}

/// `e` is a write that the tree acknowledged.
pub open spec fn acknowledged(e: FsEvent) -> bool {
    e is Write && e->status is Ok
}

/// How a failed write ends an operation: whatever the fault, a write that
/// fails is an I/O error on its file.
pub open spec fn write_failure(e: FsEvent) -> crate::error::Failure {
    (crate::error::ErrorKind::Io, e->target)
}

/// `d` is a fail-fast run of writes of `data` to `paths`, and `v` its
/// outcome: the writes go to `paths` in order; each is acknowledged until
/// the first that fails, which ends the run and is the error; if none
/// fails, every path was written and the run succeeds.
pub open spec fn write_run(
    d: Seq<FsEvent>,
    paths: Seq<Seq<char>>,
    data: Seq<char>,
    v: Result<(), crate::error::Failure>,
) -> bool {
    &&& d.len() <= paths.len()
    &&& forall|j: int| 0 <= j < d.len() ==> is_write_of(#[trigger] d[j], paths[j], data)
    &&& forall|j: int| 0 <= j < d.len() - 1 ==> acknowledged(#[trigger] d[j])
    &&& if d.len() == paths.len() && (d.len() == 0 || acknowledged(d.last())) {
        v is Ok
    } else {
        d.len() > 0 && !acknowledged(d.last()) && v == Err::<(), crate::error::Failure>(
            write_failure(d.last()),
        )
    }
}

} // verus!
