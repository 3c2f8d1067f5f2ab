use vstd::prelude::*;
use vstd::utf8::encode_utf8;
use crate::text::{bytes_contain, bytes_ends_with, bytes_eq, seq_contains, seq_ends_with};

verus! {

/// One mapped range `[start, end)` of the target's address space.
pub struct MemoryRegion {
    pub start: u64,
    pub end: u64,
    pub executable: bool,
    pub path: Option<String>,
}

/// A symbol of a loaded binary and its absolute address in the target.
pub struct Symbol {
    pub name: String,
    pub address: u64,
}

/// What the binary inspector reports of one loaded binary.
pub struct BinaryInfo {
    pub bss_addr: u64,
    pub bss_size: u64,
    pub symbols: Vec<Symbol>,
}

/// The memory map of a Python process with its interpreter binary and,
/// for a shared build, its libpython.
pub struct PythonProcessInfo {
    pub python_binary: BinaryInfo,
    pub libpython_binary: Option<BinaryInfo>,
    pub maps: Vec<MemoryRegion>,
    pub python_filename: String,
}

pub open spec fn region_contains(r: MemoryRegion, addr: u64) -> bool {
    r.start <= addr && addr < r.end
}

pub open spec fn maps_contain(maps: Seq<MemoryRegion>, addr: u64) -> bool {
    exists|k: int| 0 <= k < maps.len() && region_contains(#[trigger] maps[k], addr)
}

/// Whether some region of `maps` holds `addr`.
pub fn maps_contain_addr(addr: u64, maps: &[MemoryRegion]) -> (r: bool)
    ensures
        r == maps_contain(maps@, addr),
{
    let mut k: usize = 0;
    while k < maps.len()
        invariant
            k <= maps@.len(),
            forall|j: int| 0 <= j < k ==> !region_contains(#[trigger] maps@[j], addr),
        decreases maps@.len() - k,
    {
        if maps[k].start <= addr && addr < maps[k].end {
            assert(region_contains(maps@[k as int], addr));
            return true;
        }
        k = k + 1;
    }
    false
}

/// An executable region whose path holds `pattern`.
pub open spec fn region_matches(r: MemoryRegion, pattern: Seq<u8>) -> bool {
    r.executable && r.path is Some && seq_contains(encode_utf8(r.path->Some_0@), pattern)
}

/// The index of the first region that matches `pattern`.
pub open spec fn first_match(maps: Seq<MemoryRegion>, pattern: Seq<u8>, k: int) -> bool {
    0 <= k < maps.len() && region_matches(maps[k], pattern) && forall|j: int|
        0 <= j < k ==> !region_matches(#[trigger] maps[j], pattern)
}

/// Finds the first executable region whose path holds `pattern`.
pub fn find_region(maps: &[MemoryRegion], pattern: &[u8]) -> (r: Option<usize>)
    ensures
        match r {
            Some(k) => first_match(maps@, pattern@, k as int),
            None => forall|j: int| 0 <= j < maps@.len() ==> !region_matches(#[trigger] maps@[j], pattern@),
        },
{
    let mut k: usize = 0;
    while k < maps.len()
        invariant
            k <= maps@.len(),
            forall|j: int| 0 <= j < k ==> !region_matches(#[trigger] maps@[j], pattern@),
        decreases maps@.len() - k,
    {
        let m = &maps[k];
        if m.executable {
            if let Some(path) = &m.path {
                if bytes_contain(path.as_str().as_bytes(), pattern) {
                    return Some(k);
                }
            }
        }
        k = k + 1;
    }
    None
}

/// `bin/python`: the path of the interpreter executable.
pub open spec fn python_bin_pattern() -> Seq<u8> {
    seq![98u8, 105, 110, 47, 112, 121, 116, 104, 111, 110]
}

/// `lib/libpython`: the path of the shared interpreter library.
pub open spec fn libpython_pattern() -> Seq<u8> {
    seq![108u8, 105, 98, 47, 108, 105, 98, 112, 121, 116, 104, 111, 110]
}

/// The region of the interpreter executable: the first executable region
/// whose path holds `bin/python`.
pub fn find_python_binary(maps: &[MemoryRegion]) -> (r: Option<usize>)
    ensures
        match r {
            Some(k) => first_match(maps@, python_bin_pattern(), k as int),
            None => forall|j: int|
                0 <= j < maps@.len() ==> !region_matches(#[trigger] maps@[j], python_bin_pattern()),
        },
{
    let pattern: Vec<u8> = vec![98, 105, 110, 47, 112, 121, 116, 104, 111, 110];
    assert(pattern@ =~= python_bin_pattern());
    find_region(maps, pattern.as_slice())
}

/// The region of the shared interpreter library: the first executable
/// region whose path holds `lib/libpython`.
pub fn find_libpython(maps: &[MemoryRegion]) -> (r: Option<usize>)
    ensures
        match r {
            Some(k) => first_match(maps@, libpython_pattern(), k as int),
            None => forall|j: int|
                0 <= j < maps@.len() ==> !region_matches(#[trigger] maps@[j], libpython_pattern()),
        },
{
    let pattern: Vec<u8> = vec![108, 105, 98, 47, 108, 105, 98, 112, 121, 116, 104, 111, 110];
    assert(pattern@ =~= libpython_pattern());
    find_region(maps, pattern.as_slice())
}



/// `python.exe`: the interpreter executable on Windows.
pub open spec fn windows_python_bin_pattern() -> Seq<u8> {
    seq![112u8, 121, 116, 104, 111, 110, 46, 101, 120, 101]
}

/// `\python`: the start of the interpreter library's file name on Windows.
pub open spec fn windows_libpython_pattern() -> Seq<u8> {
    seq![92u8, 112, 121, 116, 104, 111, 110]
}

/// `dll`: the end of the interpreter library's path on Windows.
pub open spec fn dll_suffix() -> Seq<u8> {
    seq![100u8, 108, 108]
}

/// An executable region whose path holds `\python` and ends with `dll`.
pub open spec fn windows_lib_region(r: MemoryRegion) -> bool {
    &&& r.executable
    &&& r.path is Some
    &&& seq_contains(encode_utf8(r.path->Some_0@), windows_libpython_pattern())
    &&& seq_ends_with(encode_utf8(r.path->Some_0@), dll_suffix())
}

/// The region of the interpreter executable on Windows: the first
/// executable region whose path holds `python.exe`.
pub fn find_windows_python_binary(maps: &[MemoryRegion]) -> (r: Option<usize>)
    ensures
        match r {
            Some(k) => first_match(maps@, windows_python_bin_pattern(), k as int),
            None => forall|j: int|
                0 <= j < maps@.len() ==> !region_matches(#[trigger] maps@[j], windows_python_bin_pattern()),
        },
{
    let pattern: Vec<u8> = vec![112, 121, 116, 104, 111, 110, 46, 101, 120, 101];
    assert(pattern@ =~= windows_python_bin_pattern());
    find_region(maps, pattern.as_slice())
}

/// The region of the interpreter library on Windows: the first executable
/// region whose path holds `\python` and ends with `dll`.
pub fn find_windows_libpython(maps: &[MemoryRegion]) -> (r: Option<usize>)
    ensures
        match r {
            Some(k) => 0 <= k < maps@.len() && windows_lib_region(maps@[k as int]) && forall|j: int|
                0 <= j < k ==> !windows_lib_region(#[trigger] maps@[j]),
            None => forall|j: int| 0 <= j < maps@.len() ==> !windows_lib_region(#[trigger] maps@[j]),
        },
{
    let pattern: Vec<u8> = vec![92, 112, 121, 116, 104, 111, 110];
    let suffix: Vec<u8> = vec![100, 108, 108];
    assert(pattern@ =~= windows_libpython_pattern());
    assert(suffix@ =~= dll_suffix());
    let mut k: usize = 0;
    while k < maps.len()
        invariant
            k <= maps@.len(),
            pattern@ == windows_libpython_pattern(),
            suffix@ == dll_suffix(),
            forall|j: int| 0 <= j < k ==> !windows_lib_region(#[trigger] maps@[j]),
        decreases maps@.len() - k,
    {
        let m = &maps[k];
        if m.executable {
            if let Some(path) = &m.path {
                let bytes = path.as_str().as_bytes();
                if bytes_contain(bytes, pattern.as_slice()) && bytes_ends_with(bytes, suffix.as_slice()) {
                    return Some(k);
                }
            }
        }
        k = k + 1;
    }
    None
}

/// The absolute address of a symbol that the Windows symbol loader placed
/// at `addr` in a module it loaded at `base`, for a module that the target
/// loaded at `base_addr`: `base_addr + addr - base`, when every step stays
/// within 64 bits.
pub fn windows_symbol_address(base_addr: u64, addr: u64, base: u64) -> (r: Option<u64>)
    ensures
        (base_addr + addr <= u64::MAX && base <= base_addr + addr) <==> r is Some,
        r matches Some(a) ==> a == base_addr + addr - base,
{
    match base_addr.checked_add(addr) {
        Some(sum) => if base <= sum {
            Some(sum - base)
        } else {
            None
        },
        None => None,
    }
}

/// The address of the first symbol of `syms` named `name`.
pub open spec fn lookup_symbol(syms: Seq<Symbol>, name: Seq<char>) -> Option<u64>
    decreases syms.len(),
{
    if syms.len() == 0 {
        None
    } else if syms[0].name@ == name {
        Some(syms[0].address)
    } else {
        lookup_symbol(syms.drop_first(), name)
    }
}

/// Equal UTF-8 encodings mean equal strings.
proof fn lemma_same_bytes_same_chars(a: Seq<char>, b: Seq<char>)
    requires
        encode_utf8(a) == encode_utf8(b),
    ensures
        a == b,
{
    vstd::utf8::encode_utf8_decode_utf8(a);
    vstd::utf8::encode_utf8_decode_utf8(b);
}

impl BinaryInfo {
    /// The address of the symbol `name`, if the binary has one.
    pub fn symbol(&self, name: &str) -> (r: Option<u64>)
        ensures
            r == lookup_symbol(self.symbols@, name@),
    {
        let key = name.as_bytes();
        let mut k: usize = 0;
        assert(self.symbols@.subrange(0, self.symbols@.len() as int) =~= self.symbols@);
        while k < self.symbols.len()
            invariant
                k <= self.symbols@.len(),
                key@ == encode_utf8(name@),
                lookup_symbol(self.symbols@, name@) == lookup_symbol(
                    self.symbols@.subrange(k as int, self.symbols@.len() as int),
                    name@,
                ),
            decreases self.symbols@.len() - k,
        {
            let ghost rest = self.symbols@.subrange(k as int, self.symbols@.len() as int);
            let sym = &self.symbols[k];
            let same = bytes_eq(sym.name.as_str().as_bytes(), key);
            proof {
                if same {
                    lemma_same_bytes_same_chars(sym.name@, name@);
                }
                if !same {
                    assert(sym.name@ != name@);
                }
                assert(rest[0] == *sym);
            }
            if same {
                return Some(sym.address);
            }
            assert(rest.drop_first() =~= self.symbols@.subrange(k + 1, self.symbols@.len() as int));
            k = k + 1;
        }
        None
    }
}

/// Looks a symbol up in the interpreter binary, then in libpython.
pub open spec fn process_symbol(info: PythonProcessInfo, name: Seq<char>) -> Option<u64> {
    match lookup_symbol(info.python_binary.symbols@, name) {
        Some(a) => Some(a),
        None => match info.libpython_binary {
            Some(lib) => lookup_symbol(lib.symbols@, name),
            None => None,
        },
    }
}

impl PythonProcessInfo {
    /// The address of `symbol`: its first match in the interpreter binary,
    /// else in libpython.
    pub fn get_symbol(&self, symbol: &str) -> (r: Option<u64>)
        ensures
            r == process_symbol(*self, symbol@),
    {
        if let Some(addr) = self.python_binary.symbol(symbol) {
            return Some(addr);
        }
        match &self.libpython_binary {
            Some(binary) => binary.symbol(symbol),
            None => None,
        }
    }
}


pub open spec fn mach_header_symbol() -> Seq<char> {
    "_mh_execute_header"@
}

/// The binary with every address moved down by `offset`, modulo 2^64;
/// a bss address of 0 stays 0.
pub open spec fn rebased(old: BinaryInfo, new: BinaryInfo, offset: u64) -> bool {
    &&& new.bss_size == old.bss_size
    &&& new.bss_addr == if old.bss_addr == 0 {
        0
    } else {
        old.bss_addr.wrapping_sub(offset)
    }
    &&& new.symbols@.len() == old.symbols@.len()
    &&& forall|k: int|
        0 <= k < new.symbols@.len() ==> (#[trigger] new.symbols@[k]).name@ == old.symbols@[k].name@
            && new.symbols@[k].address == old.symbols@[k].address.wrapping_sub(offset)
}

impl BinaryInfo {
    /// Makes the symbols of a Mach-O executable loaded at `region_start`
    /// absolute: each address, and a nonzero bss address, is lowered by the
    /// address of `_mh_execute_header` minus `region_start`. Without that
    /// symbol the binary is left as it is and `false` returned.
    pub fn rebase_macho(&mut self, region_start: u64) -> (r: bool)
        ensures
            r == (lookup_symbol(old(self).symbols@, mach_header_symbol()) is Some),
            r ==> rebased(
                *old(self),
                *final(self),
                lookup_symbol(old(self).symbols@, mach_header_symbol())->Some_0.wrapping_sub(region_start),
            ),
            !r ==> *final(self) == *old(self),
    {
        let header = match self.symbol("_mh_execute_header") {
            Some(a) => a,
            None => return false,
        };
        let offset = header.wrapping_sub(region_start);
        let mut symbols: Vec<Symbol> = Vec::new();
        let mut k: usize = 0;
        while k < self.symbols.len()
            invariant
                k <= self.symbols@.len(),
                symbols@.len() == k,
                forall|m: int|
                    0 <= m < k ==> (#[trigger] symbols@[m]).name@ == self.symbols@[m].name@
                        && symbols@[m].address == self.symbols@[m].address.wrapping_sub(offset),
            decreases self.symbols@.len() - k,
        {
            let s = &self.symbols[k];
            symbols.push(Symbol { name: s.name.clone(), address: s.address.wrapping_sub(offset) });
            k = k + 1;
        }
        self.symbols = symbols;
        if self.bss_addr != 0 {
            self.bss_addr = self.bss_addr.wrapping_sub(offset);
        }
        true
    }
}

} // verus!
