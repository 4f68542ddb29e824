//! Converting a `bass` symbol file into a flat list of Nemu64 bookmarks,
//! where a symbol is shown in memory when its name holds `.data.`.
use vstd::prelude::*;
use crate::flat::{sym_lines, sym_view, syms_view, Sym};
use crate::nemu::{MemType, SymbolInfo};
use crate::text::{
    chars_to_string, chars_view, contains_chars, has_sub, join, join_chars, parse_u32,
    parse_u32_radix, pieces, split_on, split_words, str_chars, words,
};

verus! {

/// The symbol on a line: exactly two words, the first a hex address; it is
/// a memory symbol where its name holds `.data.`.
pub open spec fn bass_line_sym(line: Seq<char>) -> Option<Sym> {
    let w = words(line);
    if w.len() == 2 {
        match parse_u32(w[0], 16) {
            Some(a) => Some(
                Sym {
                    addr: a,
                    name: w[1],
                    mem: if has_sub(w[1], seq!['.', 'd', 'a', 't', 'a', '.']) {
                        MemType::RAM
                    } else {
                        MemType::CPU
                    },
                },
            ),
            None => None,
        }
    } else {
        None
    }
}

/// The symbols of the lines that hold one, in order.
pub open spec fn bass_syms(lines: Seq<Seq<char>>) -> Seq<Sym>
    decreases lines.len(),
{
    if lines.len() == 0 {
        Seq::empty()
    } else {
        let p = bass_syms(lines.drop_last());
        match bass_line_sym(lines.last()) {
            Some(s) => p.push(s),
            None => p,
        }
    }
}

/// The bookmark file of a `bass` symbol file: the bookmark line of each of
/// its symbols, in order, one per line.
pub open spec fn bass_flatten_spec(text: Seq<char>) -> Seq<char> {
    join(sym_lines(bass_syms(pieces(text, '\n'))), seq!['\n'])
}

/// Converts a `bass` symbol file into Nemu64 bookmarks, one per line: each
/// line of the file that is a hex address and a name becomes
/// `{CPU|MEM} 0x{ADDRESS}: {name}`, `MEM` where the name holds `.data.`;
/// other lines are skipped.
pub fn flatten(text: &str) -> (r: String)
    ensures
        r@ == bass_flatten_spec(text@),
{
    let chars = str_chars(text);
    let lines = split_on(chars.as_slice(), '\n');
    let ghost ls = chars_view(lines@);
    let data = ['.', 'd', 'a', 't', 'a', '.'];
    assert(data@ =~= seq!['.', 'd', 'a', 't', 'a', '.']);
    let mut printed: Vec<Vec<char>> = Vec::new();
    let mut i: usize = 0;
    while i < lines.len()
        invariant
            i <= lines@.len(),
            ls == chars_view(lines@),
            data@ == seq!['.', 'd', 'a', 't', 'a', '.'],
            chars_view(printed@) == sym_lines(bass_syms(ls.subrange(0, i as int))),
        decreases lines@.len() - i,
    {
        let line = &lines[i];
        assert(ls.subrange(0, i + 1).drop_last() =~= ls.subrange(0, i as int));
        assert(ls[i as int] == line@);
        let ghost prev = bass_syms(ls.subrange(0, i as int));
        let w = split_words(line.as_slice());
        assert(chars_view(w@) == words(line@));
        if w.len() == 2 {
            assert(w@[0]@ == words(line@)[0]);
            assert(w@[1]@ == words(line@)[1]);
            let mem = if contains_chars(w[1].as_slice(), &data) {
                MemType::RAM
            } else {
                MemType::CPU
            };
            match parse_u32_radix(w[0].as_slice(), 16) {
                Some(addr) => {
                    let name = chars_to_string(w[1].as_slice());
                    let info = SymbolInfo::new(addr, name.as_str(), mem);
                    let p = info.print_chars();
                    let ghost before = chars_view(printed@);
                    printed.push(p);
                    assert(sym_lines(prev.push(sym_view(info))) =~= sym_lines(prev).push(p@));
                    assert(chars_view(printed@) =~= before.push(p@));
                },
                None => {},
            }
        }
        i = i + 1;
    }
    assert(ls.subrange(0, i as int) =~= ls);
    let sep = ['\n'];
    assert(sep@ =~= seq!['\n']);
    let joined = join_chars(printed.as_slice(), &sep);
    chars_to_string(joined.as_slice())
}

} // verus!
