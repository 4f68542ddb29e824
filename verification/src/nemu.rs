//! Nemu64 bookmarks: a memory address with a name, shown as CPU or memory.
use vstd::prelude::*;
use crate::text::{append_chars, chars_to_string, format_hex10, hex10, str_chars};

verus! {

/// Whether a bookmark is shown in the CPU view or the memory view.
#[derive(Debug, Clone, Copy, PartialEq, Eq, Structural)]
pub enum MemType {
    CPU,
    RAM,
}

/// The name of the view: `CPU` or `MEM`.
pub open spec fn mem_name(m: MemType) -> Seq<char> {
    match m {
        MemType::CPU => seq!['C', 'P', 'U'],
        MemType::RAM => seq!['M', 'E', 'M'],
    }
}

impl MemType {
    /// The name of the view: `CPU` or `MEM`.
    pub fn name(&self) -> (r: Vec<char>)
        ensures
            r@ == mem_name(*self),
    {
        let mut v: Vec<char> = Vec::new();
        match self {
            MemType::CPU => {
                v.push('C');
                v.push('P');
                v.push('U');
            },
            MemType::RAM => {
                v.push('M');
                v.push('E');
                v.push('M');
            },
        }
        assert(v@ =~= mem_name(*self));
        v
    }
}

/// A bookmark: `{view} 0x{address}: {name}`.
pub open spec fn symbol_line(addr: u32, name: Seq<char>, mem: MemType) -> Seq<char> {
    mem_name(mem) + seq![' '] + hex10(addr) + seq![':', ' '] + name
}

/// An address, its name and its view.
#[derive(Debug, Clone)]
pub struct SymbolInfo {
    pub addr: u32,
    pub name: String,
    pub mem_type: MemType,
}

impl SymbolInfo {
    pub fn new(addr: u32, name: &str, mem: MemType) -> (r: Self)
        ensures
            r.addr == addr,
            r.name@ == name@,
            r.mem_type == mem,
    {
        SymbolInfo { addr: addr, name: name.to_owned(), mem_type: mem }
    }

    /// The bookmark line of the symbol, as characters.
    pub fn print_chars(&self) -> (r: Vec<char>)
        ensures
            r@ == symbol_line(self.addr, self.name@, self.mem_type),
    {
        let mut out = self.mem_type.name();
        out.push(' ');
        let hex = format_hex10(self.addr);
        append_chars(&mut out, hex.as_slice());
        out.push(':');
        out.push(' ');
        let name = str_chars(self.name.as_str());
        append_chars(&mut out, name.as_slice());
        assert(out@ =~= symbol_line(self.addr, self.name@, self.mem_type));
        out
    }

    /// The bookmark line of the symbol: `{view} 0x{address}: {name}`.
    pub fn print(&self) -> (r: String)
        ensures
            r@ == symbol_line(self.addr, self.name@, self.mem_type),
    {
        let v = self.print_chars();
        chars_to_string(v.as_slice())
    }

    pub fn get_values(&self) -> (r: (u32, &str, MemType))
        ensures
            r.0 == self.addr,
            r.1@ == self.name@,
            r.2 == self.mem_type,
    {
        (self.addr, self.name.as_str(), self.mem_type)
    }
}

} // verus!
