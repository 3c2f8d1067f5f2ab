use vstd::prelude::*;
use vstd::utf8::encode_utf8;
use crate::error::SpyError;
use crate::process::{process_symbol, PythonProcessInfo};
use crate::text::{bytes_ends_with, bytes_starts_with, seq_ends_with, seq_starts_with, split_str};
use crate::version::{decimal, push_decimal, Version};

verus! {

/// The memory layouts of the interpreter's objects, one per range of
/// versions that share them.
#[derive(Debug, Clone, Copy, PartialEq, Eq, Structural)]
pub enum LayoutFamily {
    /// Python 2.3 to 2.7.
    V2_7,
    /// Python 3.3.
    V3_3,
    /// Python 3.4 and 3.5.
    V3_5,
    /// Python 3.6.
    V3_6,
    /// Python 3.7 and 3.8.
    V3_7,
}

pub open spec fn family_of(major: u64, minor: u64) -> Option<LayoutFamily> {
    if major == 2 && 3 <= minor <= 7 {
        Some(LayoutFamily::V2_7)
    } else if major == 3 && minor == 3 {
        Some(LayoutFamily::V3_3)
    } else if major == 3 && (minor == 4 || minor == 5) {
        Some(LayoutFamily::V3_5)
    } else if major == 3 && minor == 6 {
        Some(LayoutFamily::V3_6)
    } else if major == 3 && (minor == 7 || minor == 8) {
        Some(LayoutFamily::V3_7)
    } else {
        None
    }
}

/// The layout family that describes the objects of `version`.
pub fn layout_family(version: &Version) -> (r: Result<LayoutFamily, SpyError>)
    ensures
        match family_of(version.major, version.minor) {
            Some(f) => r == Ok::<LayoutFamily, SpyError>(f),
            None => r == Err::<LayoutFamily, SpyError>(SpyError::UnsupportedVersion),
        },
{
    let (major, minor) = (version.major, version.minor);
    if major == 2 && 3 <= minor && minor <= 7 {
        Ok(LayoutFamily::V2_7)
    } else if major == 3 && minor == 3 {
        Ok(LayoutFamily::V3_3)
    } else if major == 3 && (minor == 4 || minor == 5) {
        Ok(LayoutFamily::V3_5)
    } else if major == 3 && minor == 6 {
        Ok(LayoutFamily::V3_6)
    } else if major == 3 && (minor == 7 || minor == 8) {
        Ok(LayoutFamily::V3_7)
    } else {
        Err(SpyError::UnsupportedVersion)
    }
}

/// `b` with the directory `p` and the `/` after it taken off its front,
/// if it starts so.
pub open spec fn strip_dir(b: Seq<u8>, p: Seq<u8>) -> Option<Seq<u8>> {
    if p.len() < b.len() && seq_starts_with(b, p) && b[p.len() as int] == 47 {
        Some(b.subrange(p.len() as int + 1, b.len() as int))
    } else {
        None
    }
}

pub open spec fn strip_dir_or_keep(b: Seq<u8>, p: Seq<u8>) -> Seq<u8> {
    match strip_dir(b, p) {
        Some(r) => r,
        None => b,
    }
}

pub open spec fn lib_dir() -> Seq<u8> {
    seq![108u8, 105, 98]
}

pub open spec fn site_packages_dir() -> Seq<u8> {
    seq![115u8, 105, 116, 101, 45, 112, 97, 99, 107, 97, 103, 101, 115]
}

/// A filename without the install path, and below it without `lib/`,
/// then the version directory and `site-packages/`.
pub open spec fn shortened(f: Seq<u8>, install: Seq<u8>, tag: Seq<u8>) -> Seq<u8> {
    match strip_dir(f, install) {
        None => f,
        Some(r1) => match strip_dir(r1, lib_dir()) {
            None => r1,
            Some(r2) => strip_dir_or_keep(strip_dir_or_keep(r2, tag), site_packages_dir()),
        },
    }
}

/// Shortening a filename keeps one of its suffixes.
pub proof fn lemma_shortened_is_suffix(f: Seq<u8>, install: Seq<u8>, tag: Seq<u8>)
    ensures
        seq_ends_with(f, shortened(f, install, tag)),
{
    let r = shortened(f, install, tag);
    assert forall|b: Seq<u8>, p: Seq<u8>| #[trigger]
        strip_dir(b, p) is Some implies strip_dir(b, p)->Some_0 =~= b.subrange(
        b.len() - strip_dir(b, p)->Some_0.len(),
        b.len() as int,
    ) by {}
    assert(f.subrange(f.len() - r.len(), f.len() as int) =~= r);
}

/// Takes the directory `p` and the `/` after it off the front of `s`.
fn strip_dir_exec<'a>(s: &'a str, p: &[u8]) -> (r: Option<&'a str>)
    ensures
        match strip_dir(encode_utf8(s@), p@) {
            Some(t) => r is Some && encode_utf8(r->Some_0@) == t,
            None => r is None,
        },
        r matches Some(t) ==> s@ == s@.subrange(0, s@.len() - t@.len()) + t@,
{
    let b = s.as_bytes();
    if p.len() < b.len() && bytes_starts_with(b, p) && b[p.len()] == 47 {
        let (head, rest) = split_str(s, p.len() + 1);
        assert(s@.subrange(0, s@.len() - rest@.len()) =~= head@);
        Some(rest)
    } else {
        None
    }
}


/// Where the last `/` of `b` stands, -1 if none.
pub open spec fn last_slash(b: Seq<u8>) -> int
    decreases b.len(),
{
    if b.len() == 0 {
        -1
    } else if b.last() == 47 {
        b.len() - 1
    } else {
        last_slash(b.drop_last())
    }
}

/// The directory part of a path: what stands before its last `/` (`/`
/// itself for a file at the root), empty when it has no `/`.
pub open spec fn parent_dir(b: Seq<u8>) -> Seq<u8> {
    if last_slash(b) < 0 {
        Seq::empty()
    } else if last_slash(b) == 0 {
        b.subrange(0, 1)
    } else {
        b.subrange(0, last_slash(b))
    }
}

pub open spec fn bin_suffix() -> Seq<u8> {
    seq![47u8, 98, 105, 110]
}

/// The base of a Python installation: the directory of its executable,
/// without a final `/bin`.
pub open spec fn install_path(b: Seq<u8>) -> Seq<u8> {
    if seq_ends_with(parent_dir(b), bin_suffix()) {
        parent_dir(parent_dir(b))
    } else {
        parent_dir(b)
    }
}

fn parent_str<'a>(s: &'a str) -> (r: &'a str)
    ensures
        encode_utf8(r@) == parent_dir(encode_utf8(s@)),
{
    let b = s.as_bytes();
    let mut k: usize = b.len();
    proof {
        assert(b@.subrange(0, k as int) =~= b@);
    }
    while k > 0
        invariant
            k <= b@.len(),
            b@ == encode_utf8(s@),
            last_slash(b@) == last_slash(b@.subrange(0, k as int)),
        decreases k,
    {
        if b[k - 1] == 47 {
            let cut: usize = if k == 1 { 1 } else { k - 1 };
            let (head, _) = split_str(s, cut);
            return head;
        }
        assert(b@.subrange(0, k as int).drop_last() =~= b@.subrange(0, k - 1));
        k = k - 1;
    }
    let (head, _) = split_str(s, 0);
    head
}

pub open spec fn python_chars() -> Seq<char> {
    seq!['p', 'y', 't', 'h', 'o', 'n']
}

/// The name of the version's library directory, e.g. `python3.7`.
pub open spec fn version_tag(major: u64, minor: u64) -> Seq<char> {
    python_chars() + decimal(major as nat) + seq!['.'] + decimal(minor as nat)
}

pub open spec fn thread_state_symbol() -> Seq<char> {
    "_PyThreadState_Current"@
}

pub open spec fn runtime_symbol() -> Seq<char> {
    "_PyRuntime"@
}

pub open spec fn interp_head_symbol() -> Seq<char> {
    "interp_head"@
}

/// Where a pointer to the interpreter state can be read, by symbol: on
/// the 3.7 layouts at offset 24 of `_PyRuntime` (its `interpreters.head`),
/// on the others at `interp_head`.
pub open spec fn interpreter_pointer_spec(info: PythonProcessInfo, major: u64, minor: u64) -> Option<u64> {
    if family_of(major, minor) == Some(LayoutFamily::V3_7) {
        match process_symbol(info, runtime_symbol()) {
            Some(a) => if a + 24 <= u64::MAX {
                Some((a + 24) as u64)
            } else {
                None
            },
            None => None,
        }
    } else {
        process_symbol(info, interp_head_symbol())
    }
}

/// Where the pointer to the interpreter state can be read, if the symbols
/// tell; `None` means the data segments must be scanned.
pub fn interpreter_pointer_address(info: &PythonProcessInfo, version: &Version) -> (r: Option<u64>)
    ensures
        r == interpreter_pointer_spec(*info, version.major, version.minor),
{
    if let Ok(LayoutFamily::V3_7) = layout_family(version) {
        match info.get_symbol("_PyRuntime") {
            Some(addr) => addr.checked_add(24),
            None => None,
        }
    } else {
        info.get_symbol("interp_head")
    }
}

/// Whether trace `k` is the first of `traces` whose thread is `id`.
pub open spec fn first_with_id(traces: Seq<StackTrace>, id: u64, k: int) -> bool {
    0 <= k < traces.len() && traces[k].thread_id == id && forall|j: int|
        0 <= j < k ==> (#[trigger] traces[j]).thread_id != id
}

/// Whether trace `k` is the one that holds the GIL.
pub open spec fn holds_gil(traces: Seq<StackTrace>, gil_thread_id: Option<u64>, k: int) -> bool {
    gil_thread_id is Some && first_with_id(traces, gil_thread_id->Some_0, k)
}

/// Only one trace can be the first with a given thread id.
pub proof fn lemma_one_gil_holder(traces: Seq<StackTrace>, gil_thread_id: Option<u64>, i: int, j: int)
    requires
        holds_gil(traces, gil_thread_id, i),
        holds_gil(traces, gil_thread_id, j),
    ensures
        i == j,
{
    if i < j {
        assert(traces[i].thread_id != gil_thread_id->Some_0);
    }
    if j < i {
        assert(traces[j].thread_id != gil_thread_id->Some_0);
    }
}

/// At most one trace holds the GIL.
pub open spec fn single_gil_holder(traces: Seq<StackTrace>) -> bool {
    forall|i: int, j: int|
        0 <= i < traces.len() && 0 <= j < traces.len() && (#[trigger] traces[i]).owns_gil && (#[trigger] traces[j]).owns_gil
            ==> i == j
}

/// One frame of a Python call stack.
pub struct StackFrame {
    pub filename: String,
    pub short_filename: Option<String>,
    pub function: String,
    pub line: u64,
}

/// The call stack of one interpreter thread.
pub struct StackTrace {
    pub thread_id: u64,
    pub owns_gil: bool,
    pub frames: Vec<StackFrame>,
}

/// A profiling session on one Python process.
pub struct PythonSpy {
    pub pid: u32,
    pub version: Version,
    pub interpreter_address: u64,
    /// Where the pointer to the thread that holds the GIL lives; 0 if unknown.
    pub threadstate_address: u64,
    pub python_filename: String,
    pub python_install_path: String,
    pub version_string: String,
}

impl PythonSpy {
    /// The frame as reported: the same, with the shortened filename.
    pub open spec fn frame_annotated(&self, old: StackFrame, new: StackFrame) -> bool {
        &&& new.filename@ == old.filename@
        &&& new.function@ == old.function@
        &&& new.line == old.line
        &&& new.short_filename is Some
        &&& encode_utf8(new.short_filename->Some_0@) == shortened(
            encode_utf8(old.filename@),
            encode_utf8(self.python_install_path@),
            encode_utf8(self.version_string@),
        )
    }

    /// Trace `k` as reported: its frames annotated, and the GIL marked on
    /// the first trace of the thread that holds it.
    pub open spec fn trace_annotated(
        &self,
        traces: Seq<StackTrace>,
        gil_thread_id: Option<u64>,
        k: int,
        new: StackTrace,
    ) -> bool {
        &&& new.thread_id == traces[k].thread_id
        &&& new.owns_gil == holds_gil(traces, gil_thread_id, k)
        &&& new.frames@.len() == traces[k].frames@.len()
        &&& forall|j: int|
            0 <= j < new.frames@.len() ==> self.frame_annotated(
                #[trigger] traces[k].frames@[j],
                new.frames@[j],
            )
    }

    /// Builds a session from what was learnt of the process: the thread
    /// state symbol, the install path and the version directory. Fails when
    /// no layout family covers the version.
    pub fn new(pid: u32, info: &PythonProcessInfo, version: Version, interpreter_address: u64) -> (r:
        Result<PythonSpy, SpyError>)
        ensures
            family_of(version.major, version.minor) is None <==> r == Err::<PythonSpy, SpyError>(
                SpyError::UnsupportedVersion,
            ),
            family_of(version.major, version.minor) is Some ==> r is Ok,
            r matches Ok(spy) ==> {
                &&& spy.pid == pid
                &&& spy.version == version
                &&& spy.interpreter_address == interpreter_address
                &&& spy.threadstate_address == match process_symbol(*info, thread_state_symbol()) {
                    Some(a) => a,
                    None => 0,
                }
                &&& spy.python_filename@ == info.python_filename@
                &&& encode_utf8(spy.python_install_path@) == install_path(encode_utf8(info.python_filename@))
                &&& spy.version_string@ == version_tag(version.major, version.minor)
            },
    {
        if layout_family(&version).is_err() {
            return Err(SpyError::UnsupportedVersion);
        }
        let threadstate_address = match info.get_symbol("_PyThreadState_Current") {
            Some(addr) => addr,
            None => 0,
        };
        let filename = info.python_filename.as_str();
        let parent = parent_str(filename);
        let suffix: Vec<u8> = vec![47, 98, 105, 110];
        assert(suffix@ =~= bin_suffix());
        let base = if bytes_ends_with(parent.as_bytes(), suffix.as_slice()) {
            parent_str(parent)
        } else {
            parent
        };
        proof {
            reveal_strlit("python");
            reveal_strlit(".");
        }
        let mut version_string = String::new();
        version_string.append("python");
        push_decimal(&mut version_string, version.major);
        version_string.append(".");
        push_decimal(&mut version_string, version.minor);
        assert(version_string@ =~= version_tag(version.major, version.minor));
        Ok(
            PythonSpy {
                pid,
                version,
                interpreter_address,
                threadstate_address,
                python_filename: info.python_filename.clone(),
                python_install_path: base.to_owned(),
                version_string,
            },
        )
    }

    fn annotate_frames(&self, frames: &Vec<StackFrame>) -> (r: Vec<StackFrame>)
        ensures
            r@.len() == frames@.len(),
            forall|j: int| 0 <= j < r@.len() ==> self.frame_annotated(#[trigger] frames@[j], r@[j]),
    {
        let mut out: Vec<StackFrame> = Vec::new();
        let mut j: usize = 0;
        while j < frames.len()
            invariant
                j <= frames@.len(),
                out@.len() == j,
                forall|m: int| 0 <= m < j ==> self.frame_annotated(#[trigger] frames@[m], out@[m]),
            decreases frames@.len() - j,
        {
            let f = &frames[j];
            let short = self.shorten_filename(f.filename.as_str()).to_owned();
            out.push(
                StackFrame {
                    filename: f.filename.clone(),
                    short_filename: Some(short),
                    function: f.function.clone(),
                    line: f.line,
                },
            );
            j = j + 1;
        }
        out
    }

    /// The stack traces of the session's process, as read from its threads:
    /// each frame gets its shortened filename, and the first trace of the
    /// thread that holds the GIL (if one does) is marked. Fails when no
    /// layout covers the session's version.
    pub fn get_stack_traces(&self, traces: &[StackTrace], gil_thread_id: Option<u64>) -> (r: Result<
        Vec<StackTrace>,
        SpyError,
    >)
        ensures
            family_of(self.version.major, self.version.minor) is None ==> r == Err::<
                Vec<StackTrace>,
                SpyError,
            >(SpyError::UnsupportedVersion),
            family_of(self.version.major, self.version.minor) is Some ==> r is Ok,
            r matches Ok(out) ==> {
                &&& out@.len() == traces@.len()
                &&& forall|k: int|
                    0 <= k < out@.len() ==> self.trace_annotated(traces@, gil_thread_id, k, #[trigger] out@[k])
                &&& single_gil_holder(out@)
            },
    {
        if layout_family(&self.version).is_err() {
            return Err(SpyError::UnsupportedVersion);
        }
        let mut out: Vec<StackTrace> = Vec::new();
        let mut marked = false;
        let mut k: usize = 0;
        while k < traces.len()
            invariant
                k <= traces@.len(),
                out@.len() == k,
                forall|m: int|
                    0 <= m < k ==> self.trace_annotated(traces@, gil_thread_id, m, #[trigger] out@[m]),
                marked == exists|m: int| 0 <= m < k && holds_gil(traces@, gil_thread_id, m),
                gil_thread_id is Some && !marked ==> forall|m: int|
                    0 <= m < k ==> (#[trigger] traces@[m]).thread_id != gil_thread_id->Some_0,
            decreases traces@.len() - k,
        {
            let t = &traces[k];
            let owns = match gil_thread_id {
                Some(id) => !marked && t.thread_id == id,
                None => false,
            };
            proof {
                if marked {
                    let m = choose|m: int| 0 <= m < k && holds_gil(traces@, gil_thread_id, m);
                    if holds_gil(traces@, gil_thread_id, k as int) {
                        lemma_one_gil_holder(traces@, gil_thread_id, m, k as int);
                    }
                }
            }
            assert(owns == holds_gil(traces@, gil_thread_id, k as int));
            if owns {
                marked = true;
            }
            let frames = self.annotate_frames(&t.frames);
            out.push(StackTrace { thread_id: t.thread_id, owns_gil: owns, frames });
            k = k + 1;
        }
        proof {
            assert forall|i: int, j: int|
                0 <= i < out@.len() && 0 <= j < out@.len() && (#[trigger] out@[i]).owns_gil && (#[trigger] out@[j]).owns_gil
                    implies i == j by {
                assert(self.trace_annotated(traces@, gil_thread_id, i, out@[i]));
                assert(self.trace_annotated(traces@, gil_thread_id, j, out@[j]));
                lemma_one_gil_holder(traces@, gil_thread_id, i, j);
            }
        }
        Ok(out)
    }
    /// `filename` without the boilerplate of the Python installation: the
    /// install path, then `lib/`, the version directory and `site-packages/`.
    pub fn shorten_filename<'a>(&self, filename: &'a str) -> (r: &'a str)
        ensures
            encode_utf8(r@) == shortened(
                encode_utf8(filename@),
                encode_utf8(self.python_install_path@),
                encode_utf8(self.version_string@),
            ),
            filename@.subrange(filename@.len() - r@.len(), filename@.len() as int) == r@,
    {
        let lib: Vec<u8> = vec![108, 105, 98];
        let site: Vec<u8> = vec![115, 105, 116, 101, 45, 112, 97, 99, 107, 97, 103, 101, 115];
        assert(lib@ =~= lib_dir());
        assert(site@ =~= site_packages_dir());
        match strip_dir_exec(filename, self.python_install_path.as_str().as_bytes()) {
            None => filename,
            Some(r1) => match strip_dir_exec(r1, lib.as_slice()) {
                None => r1,
                Some(r2) => {
                    let r3 = match strip_dir_exec(r2, self.version_string.as_str().as_bytes()) {
                        Some(t) => t,
                        None => r2,
                    };
                    match strip_dir_exec(r3, site.as_slice()) {
                        Some(t) => t,
                        None => r3,
                    }
                },
            },
        }
    }
}

} // verus!
