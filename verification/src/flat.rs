//! Converting an assembler symbol file (one `{hex address} {name}` per line)
//! into a flat list of Nemu64 bookmarks.
use vstd::prelude::*;
use crate::nemu::{symbol_line, MemType, SymbolInfo};
use crate::text::{
    any_piece_is, chars_to_string, chars_view, join, join_chars, lex_le_fn, lemma_insert_at,
    lemma_pieces_nonempty, parse_u32, parse_u32_radix, pieces, sort_by, sort_lines, split_on,
    split_words, str_chars, words,
};

verus! {

/// A symbol as plain values.
pub struct Sym {
    pub addr: u32,
    pub name: Seq<char>,
    pub mem: MemType,
}

pub open spec fn sym_view(s: SymbolInfo) -> Sym {
    Sym { addr: s.addr, name: s.name@, mem: s.mem_type }
}

pub open spec fn syms_view(v: Seq<SymbolInfo>) -> Seq<Sym> {
    v.map_values(|s: SymbolInfo| sym_view(s))
}

/// A name is shown in memory where one of its `.`-separated scopes is the
/// data filter, else in the CPU view.
pub open spec fn mem_for(name: Seq<char>, filter: Seq<char>) -> MemType {
    if pieces(name, '.').contains(filter) {
        MemType::RAM
    } else {
        MemType::CPU
    }
}

/// The symbol on a line: exactly two words, the first a hex address.
pub open spec fn line_sym(line: Seq<char>, filter: Seq<char>) -> Option<Sym> {
    let w = words(line);
    if w.len() == 2 {
        match parse_u32(w[0], 16) {
            Some(a) => Some(Sym { addr: a, name: w[1], mem: mem_for(w[1], filter) }),
            None => None,
        }
    } else {
        None
    }
}

/// The symbols of the lines that hold one, in order.
pub open spec fn syms_of(lines: Seq<Seq<char>>, filter: Seq<char>) -> Seq<Sym>
    decreases lines.len(),
{
    if lines.len() == 0 {
        Seq::empty()
    } else {
        let p = syms_of(lines.drop_last(), filter);
        match line_sym(lines.last(), filter) {
            Some(s) => p.push(s),
            None => p,
        }
    }
}

/// The symbols of a symbol file.
pub open spec fn file_syms(text: Seq<char>, filter: Seq<char>) -> Seq<Sym> {
    syms_of(pieces(text, '\n'), filter)
}

pub open spec fn sym_lines(s: Seq<Sym>) -> Seq<Seq<char>> {
    s.map_values(|x: Sym| symbol_line(x.addr, x.name, x.mem))
}

/// Symbols ordered by address, then by the number of scopes in the name.
pub open spec fn sym_key_le() -> spec_fn(Sym, Sym) -> bool {
    |a: Sym, b: Sym|
        a.addr < b.addr || (a.addr == b.addr && pieces(a.name, '.').len() <= pieces(
            b.name,
            '.',
        ).len())
}

/// Two CPU symbols at one address.
pub open spec fn same_cpu_addr(a: Sym, b: Sym) -> bool {
    a.mem == MemType::CPU && b.mem == MemType::CPU && a.addr == b.addr
}

/// `Vec::dedup_by`: each symbol is dropped where it is a CPU symbol at the
/// address of the last symbol kept, that one being a CPU symbol too.
pub open spec fn dedup_syms(s: Seq<Sym>) -> Seq<Sym>
    decreases s.len(),
{
    if s.len() <= 1 {
        s
    } else {
        let d = dedup_syms(s.drop_last());
        if same_cpu_addr(s.last(), d.last()) {
            d
        } else {
            d.push(s.last())
        }
    }
}

/// The bookmark file of a symbol file: every symbol's bookmark line, one per
/// line; where duplicates are not wanted, CPU symbols that share an address
/// (ordered by address and then number of scopes) are kept once, and the
/// lines are sorted.
pub open spec fn flatten_spec(text: Seq<char>, filter: Seq<char>, duplicates: bool) -> Seq<char> {
    let syms = file_syms(text, filter);
    if duplicates {
        join(sym_lines(syms), seq!['\n'])
    } else {
        join(
            sort_by(sym_lines(dedup_syms(sort_by(syms, sym_key_le()))), lex_le_fn()),
            seq!['\n'],
        )
    }
}

/// The symbols of the lines of a symbol file.
pub(crate) fn parse_symbols(text: &[char], filter: &[char]) -> (r: Vec<SymbolInfo>)
    ensures
        syms_view(r@) == syms_of(pieces(text@, '\n'), filter@),
{
    let lines = split_on(text, '\n');
    let ghost ls = chars_view(lines@);
    let mut out: Vec<SymbolInfo> = Vec::new();
    let mut i: usize = 0;
    while i < lines.len()
        invariant
            i <= lines@.len(),
            ls == chars_view(lines@),
            syms_view(out@) == syms_of(ls.subrange(0, i as int), filter@),
        decreases lines@.len() - i,
    {
        let line = &lines[i];
        assert(ls.subrange(0, i + 1).drop_last() =~= ls.subrange(0, i as int));
        assert(ls[i as int] == line@);
        let w = split_words(line.as_slice());
        assert(chars_view(w@) == words(line@));
        if w.len() == 2 {
            assert(w@[0]@ == words(line@)[0]);
            assert(w@[1]@ == words(line@)[1]);
            match parse_u32_radix(w[0].as_slice(), 16) {
                Some(addr) => {
                    let scopes = split_on(w[1].as_slice(), '.');
                    let mem = if any_piece_is(scopes.as_slice(), filter) {
                        MemType::RAM
                    } else {
                        MemType::CPU
                    };
                    let name = chars_to_string(w[1].as_slice());
                    let ghost before = syms_view(out@);
                    out.push(SymbolInfo { addr, name, mem_type: mem });
                    assert(syms_view(out@) =~= before.push(
                        Sym { addr, name: w@[1]@, mem: mem_for(w@[1]@, filter@) },
                    ));
                },
                None => {},
            }
        }
        i = i + 1;
    }
    assert(ls.subrange(0, i as int) =~= ls);
    out
}

/// The number of `.`-separated scopes of a name.
fn scope_count(name: &String) -> (r: usize)
    ensures
        r == pieces(name@, '.').len(),
{
    let chars = str_chars(name.as_str());
    let ps = split_on(chars.as_slice(), '.');
    ps.len()
}

fn sym_le(a: &SymbolInfo, b: &SymbolInfo) -> (r: bool)
    ensures
        r == (sym_key_le())(sym_view(*a), sym_view(*b)),
{
    a.addr < b.addr || (a.addr == b.addr && scope_count(&a.name) <= scope_count(&b.name))
}

/// The symbols stably sorted by address, then number of scopes.
fn sort_symbols(v: Vec<SymbolInfo>) -> (r: Vec<SymbolInfo>)
    ensures
        syms_view(r@) == sort_by(syms_view(v@), sym_key_le()),
{
    let ghost orig = syms_view(v@);
    let mut v = v;
    let mut out: Vec<SymbolInfo> = Vec::new();
    let mut i: usize = 0;
    let n = v.len();
    assert(orig.len() == n);
    assert(syms_view(v@) =~= orig.subrange(0, orig.len() as int));
    while v.len() > 0
        invariant
            i + v@.len() == orig.len(),
            orig.len() <= usize::MAX,
            syms_view(v@) == orig.subrange(i as int, orig.len() as int),
            syms_view(out@) == sort_by(orig.subrange(0, i as int), sym_key_le()),
        decreases v@.len(),
    {
        let ghost rest = v@;
        let x = v.remove(0);
        assert(sym_view(x) == orig[i as int]) by {
            assert(syms_view(rest)[0] == sym_view(rest[0]));
        }
        assert(syms_view(v@) =~= orig.subrange(i + 1, orig.len() as int)) by {
            assert forall|k: int| 0 <= k < v@.len() implies syms_view(v@)[k] == orig.subrange(
                i + 1,
                orig.len() as int,
            )[k] by {
                assert(v@[k] == rest[k + 1]);
                assert(syms_view(rest)[k + 1] == sym_view(rest[k + 1]));
            }
        }
        let mut j: usize = out.len();
        while j > 0 && !sym_le(&out[j - 1], &x)
            invariant
                j <= out@.len(),
                forall|k: int|
                    j <= k < out@.len() ==> !(sym_key_le())(sym_view(#[trigger] out@[k]), sym_view(x)),
            decreases j,
        {
            j = j - 1;
        }
        let ghost before = syms_view(out@);
        proof {
            assert forall|k: int| j <= k < before.len() implies !(sym_key_le())(
                #[trigger] before[k],
                sym_view(x),
            ) by {
                assert(before[k] == sym_view(out@[k]));
            }
            if j > 0 {
                assert(before[j - 1] == sym_view(out@[j - 1]));
            }
            lemma_insert_at(before, sym_view(x), sym_key_le(), j as int);
        }
        out.insert(j, x);
        assert(syms_view(out@) =~= before.subrange(0, j as int) + seq![sym_view(x)]
            + before.subrange(j as int, before.len() as int));
        i = i + 1;
        assert(orig.subrange(0, i as int).drop_last() =~= orig.subrange(0, i - 1));
    }
    assert(orig.subrange(0, i as int) =~= orig);
    out
}

proof fn lemma_dedup_nonempty(s: Seq<Sym>)
    ensures
        s.len() > 0 ==> dedup_syms(s).len() > 0,
    decreases s.len(),
{
    if s.len() > 1 {
        lemma_dedup_nonempty(s.drop_last());
    }
}

/// The symbols without CPU symbols repeating the address of the last kept
/// CPU symbol.
fn dedup_symbols(v: Vec<SymbolInfo>) -> (r: Vec<SymbolInfo>)
    ensures
        syms_view(r@) == dedup_syms(syms_view(v@)),
{
    let ghost orig = syms_view(v@);
    let mut v = v;
    let mut out: Vec<SymbolInfo> = Vec::new();
    let mut i: usize = 0;
    let n = v.len();
    assert(orig.len() == n);
    assert(syms_view(v@) =~= orig.subrange(0, orig.len() as int));
    while v.len() > 0
        invariant
            i + v@.len() == orig.len(),
            orig.len() <= usize::MAX,
            syms_view(v@) == orig.subrange(i as int, orig.len() as int),
            syms_view(out@) == dedup_syms(orig.subrange(0, i as int)),
        decreases v@.len(),
    {
        let ghost rest = v@;
        let x = v.remove(0);
        assert(sym_view(x) == orig[i as int]) by {
            assert(syms_view(rest)[0] == sym_view(rest[0]));
        }
        assert(syms_view(v@) =~= orig.subrange(i + 1, orig.len() as int)) by {
            assert forall|k: int| 0 <= k < v@.len() implies syms_view(v@)[k] == orig.subrange(
                i + 1,
                orig.len() as int,
            )[k] by {
                assert(v@[k] == rest[k + 1]);
                assert(syms_view(rest)[k + 1] == sym_view(rest[k + 1]));
            }
        }
        let ghost pre = orig.subrange(0, i as int);
        proof {
            lemma_dedup_nonempty(pre);
            assert(orig.subrange(0, i + 1).drop_last() =~= pre);
        }
        let n = out.len();
        let dup = n > 0 && out[n - 1].mem_type == MemType::CPU && x.mem_type == MemType::CPU
            && out[n - 1].addr == x.addr;
        if n > 0 {
            assert(syms_view(out@).last() == sym_view(out@[n - 1]));
        }
        if !dup {
            let ghost before = syms_view(out@);
            out.push(x);
            assert(syms_view(out@) =~= before.push(sym_view(x)));
            if i == 0 {
                assert(orig.subrange(0, 1) =~= seq![sym_view(x)]);
            }
        }
        i = i + 1;
    }
    assert(orig.subrange(0, i as int) =~= orig);
    out
}

/// The bookmark lines of the symbols.
fn symbol_lines(v: &Vec<SymbolInfo>) -> (r: Vec<Vec<char>>)
    ensures
        chars_view(r@) == sym_lines(syms_view(v@)),
{
    let mut out: Vec<Vec<char>> = Vec::new();
    let mut i: usize = 0;
    while i < v.len()
        invariant
            i <= v@.len(),
            chars_view(out@) == sym_lines(syms_view(v@.subrange(0, i as int))),
        decreases v@.len() - i,
    {
        let line = v[i].print_chars();
        let ghost before = chars_view(out@);
        out.push(line);
        assert(syms_view(v@.subrange(0, i + 1)) =~= syms_view(v@.subrange(0, i as int)).push(
            sym_view(v@[i as int]),
        ));
        assert(sym_lines(syms_view(v@.subrange(0, i + 1))) =~= sym_lines(
            syms_view(v@.subrange(0, i as int)),
        ).push(line@));
        assert(chars_view(out@) =~= before.push(line@));
        i = i + 1;
    }
    assert(v@.subrange(0, i as int) =~= v@);
    out
}

/// Converts a symbol file into Nemu64 bookmarks, one per line: each line of
/// the file that is a hex address and a name becomes
/// `{CPU|MEM} 0x{ADDRESS}: {name}`, `MEM` where a `.`-separated scope of the
/// name is `data_filter`. Without `duplicates`, CPU symbols that share an
/// address are kept once (the one with the fewest scopes) and the lines are
/// sorted.
pub fn flatten(text: &str, data_filter: &str, duplicates: bool) -> (r: String)
    ensures
        r@ == flatten_spec(text@, data_filter@, duplicates),
{
    let chars = str_chars(text);
    let filter = str_chars(data_filter);
    let parsed_lines = parse_symbols(chars.as_slice(), filter.as_slice());
    let sep = ['\n'];
    assert(sep@ =~= seq!['\n']);
    // where necessary, remove duplicates, then return the completed string
    if !duplicates {
        let sort_array = sort_symbols(parsed_lines);
        let sort_array = dedup_symbols(sort_array);
        let print_array = symbol_lines(&sort_array);
        // sort by printed line
        let print_array = sort_lines(print_array);
        let joined = join_chars(print_array.as_slice(), &sep);
        chars_to_string(joined.as_slice())
    } else {
        let print_array = symbol_lines(&parsed_lines);
        let joined = join_chars(print_array.as_slice(), &sep);
        chars_to_string(joined.as_slice())
    }
}

} // verus!
