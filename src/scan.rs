use vstd::prelude::*;
use crate::error::SpyError;
use crate::process::{maps_contain, maps_contain_addr, MemoryRegion};
use crate::version::{scanned_version, Version, VersionView};

verus! {

/// The little-endian number held by the `n` bytes of `b` from `i` on.
pub open spec fn le_word(b: Seq<u8>, i: int, n: nat) -> nat
    decreases n,
{
    if n == 0 {
        0
    } else {
        b[i] as nat + 256 * le_word(b, i + 1, (n - 1) as nat)
    }
}

pub open spec fn byte_cap(n: nat) -> nat
    decreases n,
{
    if n == 0 {
        1
    } else {
        256 * byte_cap((n - 1) as nat)
    }
}

/// The 64-bit little-endian words of a data segment, trailing bytes left out.
pub open spec fn bss_words(b: Seq<u8>) -> Seq<u64> {
    Seq::new(b.len() / 8, |k: int| le_word(b, 8 * k, 8) as u64)
}

/// The words of `ws` that point into some region of `maps`, in order.
pub open spec fn candidates(maps: Seq<MemoryRegion>, ws: Seq<u64>) -> Seq<u64>
    decreases ws.len(),
{
    if ws.len() == 0 {
        Seq::empty()
    } else if maps_contain(maps, ws.last()) {
        candidates(maps, ws.drop_last()).push(ws.last())
    } else {
        candidates(maps, ws.drop_last())
    }
}

fn read_word(b: &[u8], i: usize) -> (r: u64)
    requires
        i + 8 <= b@.len(),
    ensures
        r as nat == le_word(b@, i as int, 8),
{
    let mut acc: u64 = 0;
    let mut n: usize = 0;
    proof {
        reveal_with_fuel(byte_cap, 9);
        assert(byte_cap(7) == 0x100000000000000);
    }
    while n < 8
        invariant
            n <= 8,
            i + 8 <= b.len(),
            acc as nat == le_word(b@, i + 8 - n, n as nat),
            acc < byte_cap(n as nat),
            byte_cap(7) == 0x100000000000000,
        decreases 8 - n,
    {
        let byte = b[i + 7 - n];
        proof {
            if n < 7 {
                lemma_byte_cap_grows(n as nat, 7);
            }
            assert(acc * 256 + byte < 256 * byte_cap(n as nat)) by (nonlinear_arith)
                requires
                    acc < byte_cap(n as nat),
                    byte < 256,
            ;
        }
        acc = acc * 256 + byte as u64;
        n = n + 1;
    }
    acc
}

proof fn lemma_byte_cap_grows(m: nat, n: nat)
    requires
        m <= n,
    ensures
        byte_cap(m) <= byte_cap(n),
    decreases n - m,
{
    if m < n {
        lemma_byte_cap_grows(m, (n - 1) as nat);
    }
}

/// The words of a copied data segment that point into mapped memory: the
/// candidates for the interpreter state's address.
pub fn interpreter_candidates(bss: &[u8], maps: &[MemoryRegion]) -> (r: Vec<u64>)
    ensures
        r@ == candidates(maps@, bss_words(bss@)),
{
    let count = bss.len() / 8;
    let ghost words = bss_words(bss@);
    let mut out: Vec<u64> = Vec::new();
    let mut k: usize = 0;
    while k < count
        invariant
            count == bss.len() / 8,
            words == bss_words(bss@),
            k <= count,
            out@ == candidates(maps@, words.take(k as int)),
        decreases count - k,
    {
        let len = bss.len();
        assert(8 * k + 8 <= len) by (nonlinear_arith)
            requires
                k < count,
                count == len / 8,
        ;
        let w = read_word(bss, 8 * k);
        assert(words.take(k + 1).drop_last() =~= words.take(k as int));
        assert(words.take(k + 1).last() == w);
        if maps_contain_addr(w, maps) {
            out.push(w);
        }
        k = k + 1;
    }
    assert(words.take(count as int) =~= words);
    out
}

/// Whether a candidate `addr` is accepted as the interpreter state: it lies
/// in mapped memory, so does the head of its thread list, that thread
/// points back to `addr`, and a walk of its stacks succeeded.
pub fn check_interpreter_candidate(
    addr: u64,
    head: u64,
    head_interp: u64,
    walk_ok: bool,
    maps: &[MemoryRegion],
) -> (r: bool)
    ensures
        r == (maps_contain(maps@, addr) && maps_contain(maps@, head) && head_interp == addr
            && walk_ok),
        r ==> head_interp == addr,
{
    maps_contain_addr(addr, maps) && maps_contain_addr(head, maps) && head_interp == addr && walk_ok
}

/// Which version the interpreter's data shows: the version text exported
/// by a symbol when there is one, else the interpreter binary's data
/// segment, else libpython's.
pub open spec fn version_choice(
    text: Option<Seq<u8>>,
    python_bss: Seq<u8>,
    libpython_bss: Option<Seq<u8>>,
) -> Option<VersionView> {
    match text {
        Some(t) => scanned_version(t),
        None => match scanned_version(python_bss) {
            Some(v) => Some(v),
            None => match libpython_bss {
                Some(l) => scanned_version(l),
                None => None,
            },
        },
    }
}

pub open spec fn opt_bytes(b: Option<&[u8]>) -> Option<Seq<u8>> {
    match b {
        Some(s) => Some(s@),
        None => None,
    }
}

/// Finds the Python version in the data read from the process.
pub fn get_python_version(
    version_text: Option<&[u8]>,
    python_bss: &[u8],
    libpython_bss: Option<&[u8]>,
) -> (r: Result<Version, SpyError>)
    ensures
        match r {
            Ok(v) => version_choice(opt_bytes(version_text), python_bss@, opt_bytes(libpython_bss))
                == Some(v@),
            Err(e) => version_choice(opt_bytes(version_text), python_bss@, opt_bytes(libpython_bss))
                is None && e == SpyError::VersionNotFound,
        },
{
    if let Some(text) = version_text {
        return Version::scan_bytes(text);
    }
    match Version::scan_bytes(python_bss) {
        Ok(v) => Ok(v),
        Err(e) => match libpython_bss {
            Some(lib) => Version::scan_bytes(lib),
            None => Err(e),
        },
    }
}

/// Whether opening a session should be tried again after `failures`
/// failed attempts.
pub fn should_retry(failures: u64, max_retries: u64) -> (r: bool)
    ensures
        r == (failures < max_retries),
{
    failures < max_retries
}

} // verus!
