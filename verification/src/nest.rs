//! Converting an assembler symbol file into nested Nemu64 bookmarks: the
//! `.`-separated scopes of a symbol's name become folders.
use vstd::prelude::*;
use crate::flat::{file_syms, mem_for, sym_lines, syms_of, Sym};
use crate::nemu::{symbol_line, MemType, SymbolInfo};
use crate::order::{
    filter_map, lemma_filter_map_permutation, lemma_lex_total_order, lemma_map_values_filter_map,
    lemma_sort_by_permutation,
};
use crate::flat::line_sym;
use vstd::seq_lib::group_to_multiset_ensures;
use vstd::multiset::group_multiset_axioms;
use crate::text::{
    any_piece_is, append_chars, chars_eq, chars_to_string, chars_view, join, join_chars, lex_le_fn,
    lemma_join_nested, lemma_join_pieces, lemma_pieces_nonempty, parse_u32, parse_u32_radix, pieces, sort_by, sort_lines, split_on,
    split_words, str_chars, words,
};

verus! {

/// The names of the strings.
pub open spec fn strings_view(v: Seq<String>) -> Seq<Seq<char>> {
    v.map_values(|s: String| s@)
}

/// The scope pieces with the last `scope` scopes put back into the name:
/// the last `scope + 1` pieces (or all) joined with `.`.
pub open spec fn scoped(ps: Seq<Seq<char>>, scope: int) -> Seq<Seq<char>> {
    let n = ps.len() as int;
    let k = if scope < n - 1 {
        scope
    } else {
        n - 1
    };
    ps.subrange(0, n - 1 - k) + seq![join(ps.subrange(n - 1 - k, n), seq!['.'])]
}

/// At most `nest` folders: everything from the `nest`-th piece on is joined
/// with `.` into the last piece.
pub open spec fn nested(e: Seq<Seq<char>>, nest: Option<usize>) -> Seq<Seq<char>> {
    match nest {
        None => e,
        Some(n) => if e.len() <= n + 1 {
            e
        } else {
            e.subrange(0, n as int) + seq![join(e.subrange(n as int, e.len() as int), seq!['.'])]
        },
    }
}

/// The folders and name that a symbol name is split into.
pub open spec fn nest_name_of(name: Seq<char>, scope: usize, nest: Option<usize>) -> Seq<
    Seq<char>,
> {
    nested(scoped(pieces(name, '.'), scope as int), nest)
}

fn scope_pieces(ps: Vec<Vec<char>>, scope: usize) -> (r: Vec<Vec<char>>)
    requires
        ps@.len() >= 1,
    ensures
        chars_view(r@) == scoped(chars_view(ps@), scope as int),
{
    let n = ps.len();
    let k = if scope < n - 1 {
        scope
    } else {
        n - 1
    };
    let mut out: Vec<Vec<char>> = Vec::new();
    let mut i: usize = 0;
    while i < n - 1 - k
        invariant
            i <= n - 1 - k,
            n == ps@.len(),
            k <= n - 1,
            chars_view(out@) == chars_view(ps@).subrange(0, i as int),
        decreases n - 1 - k - i,
    {
        let p = ps[i].clone();
        assert(p@ == ps@[i as int]@);
        let ghost before = chars_view(out@);
        out.push(p);
        assert(chars_view(out@) =~= before.push(p@));
        i = i + 1;
        assert(chars_view(out@) =~= chars_view(ps@).subrange(0, i as int));
    }
    let tail = slice_from(&ps, n - 1 - k);
    let dot = ['.'];
    assert(dot@ =~= seq!['.']);
    let joined = join_chars(tail.as_slice(), &dot);
    let ghost before = chars_view(out@);
    out.push(joined);
    assert(chars_view(out@) =~= scoped(chars_view(ps@), scope as int));
    out
}

/// Copies of the strings from position `start` on.
fn slice_from(ps: &Vec<Vec<char>>, start: usize) -> (r: Vec<Vec<char>>)
    requires
        start <= ps@.len(),
    ensures
        chars_view(r@) == chars_view(ps@).subrange(start as int, ps@.len() as int),
{
    let mut out: Vec<Vec<char>> = Vec::new();
    let mut i: usize = start;
    while i < ps.len()
        invariant
            start <= i <= ps@.len(),
            chars_view(out@) == chars_view(ps@).subrange(start as int, i as int),
        decreases ps@.len() - i,
    {
        let p = ps[i].clone();
        assert(p@ == ps@[i as int]@);
        let ghost before = chars_view(out@);
        out.push(p);
        assert(chars_view(out@) =~= before.push(p@));
        i = i + 1;
        assert(chars_view(out@) =~= chars_view(ps@).subrange(start as int, i as int));
    }
    out
}

fn nest_pieces(e: Vec<Vec<char>>, nest: Option<usize>) -> (r: Vec<Vec<char>>)
    ensures
        chars_view(r@) == nested(chars_view(e@), nest),
{
    match nest {
        None => e,
        Some(n) => {
            if e.len() <= n || e.len() - n <= 1 {
                e
            } else {
                let mut out: Vec<Vec<char>> = Vec::new();
                let mut i: usize = 0;
                while i < n
                    invariant
                        i <= n,
                        n < e@.len(),
                        chars_view(out@) == chars_view(e@).subrange(0, i as int),
                    decreases n - i,
                {
                    let p = e[i].clone();
                    assert(p@ == e@[i as int]@);
                    let ghost before = chars_view(out@);
                    out.push(p);
                    assert(chars_view(out@) =~= before.push(p@));
                    i = i + 1;
                    assert(chars_view(out@) =~= chars_view(e@).subrange(0, i as int));
                }
                let tail = slice_from(&e, n);
                let dot = ['.'];
                assert(dot@ =~= seq!['.']);
                let joined = join_chars(tail.as_slice(), &dot);
                out.push(joined);
                assert(chars_view(out@) =~= nested(chars_view(e@), nest));
                out
            }
        },
    }
}

/// Splits a symbol line's name into folders and the bookmark name; the line
/// is an address and a name. `None` where the address is not hex.
pub fn scope_and_nest_line(
    pair: Vec<String>,
    scope: usize,
    nest: Option<usize>,
    data_filter: &str,
) -> (r: Option<(MemType, u32, Vec<String>)>)
    requires
        pair@.len() >= 2,
    ensures
        match parse_u32(pair@[0]@, 16) {
            None => r is None,
            Some(a) => match r {
                Some((m, h, names)) => m == mem_for(pair@[1]@, data_filter@) && h == a
                    && strings_view(names@) == nest_name_of(pair@[1]@, scope, nest),
                None => false,
            },
        },
{
    let addr = str_chars(pair[0].as_str());
    let name = str_chars(pair[1].as_str());
    let filter = str_chars(data_filter);
    let ps = split_on(name.as_slice(), '.');
    let mem = if any_piece_is(ps.as_slice(), filter.as_slice()) {
        MemType::RAM
    } else {
        MemType::CPU
    };
    let hex_addr = parse_u32_radix(addr.as_slice(), 16);
    proof {
        lemma_pieces_nonempty(name@, '.');
    }
    let scoped_name = scope_pieces(ps, scope);
    let nest_name = nest_pieces(scoped_name, nest);
    // return only where there is a valid hex address
    match hex_addr {
        Some(hex) => Some((mem, hex, to_strings(&nest_name))),
        None => None,
    }
}

fn to_strings(v: &Vec<Vec<char>>) -> (r: Vec<String>)
    ensures
        strings_view(r@) == chars_view(v@),
{
    let mut out: Vec<String> = Vec::new();
    let mut i: usize = 0;
    while i < v.len()
        invariant
            i <= v@.len(),
            strings_view(out@) == chars_view(v@).subrange(0, i as int),
        decreases v@.len() - i,
    {
        let s = chars_to_string(v[i].as_slice());
        let ghost before = strings_view(out@);
        out.push(s);
        assert(strings_view(out@) =~= before.push(v@[i as int]@));
        i = i + 1;
        assert(strings_view(out@) =~= chars_view(v@).subrange(0, i as int));
    }
    assert(chars_view(v@).subrange(0, i as int) =~= chars_view(v@));
    out
}

/// A bookmark to be placed: its folders and its line.
pub struct Entry {
    pub path: Seq<Seq<char>>,
    pub line: Seq<char>,
}

/// The number of folder steps of all the entries.
pub open spec fn weight(es: Seq<Entry>) -> nat
    decreases es.len(),
{
    if es.len() == 0 {
        0
    } else {
        weight(es.drop_last()) + es.last().path.len()
    }
}

/// The first folders of the entries, each once, in order of appearance.
pub open spec fn first_names(es: Seq<Entry>) -> Seq<Seq<char>>
    decreases es.len(),
{
    if es.len() == 0 {
        Seq::empty()
    } else {
        let f = first_names(es.drop_last());
        let e = es.last();
        if e.path.len() > 0 && !f.contains(e.path[0]) {
            f.push(e.path[0])
        } else {
            f
        }
    }
}

/// The entries in folder `b`, with the folder taken off their path.
pub open spec fn sub_entries(es: Seq<Entry>, b: Seq<char>) -> Seq<Entry>
    decreases es.len(),
{
    if es.len() == 0 {
        Seq::empty()
    } else {
        let s = sub_entries(es.drop_last(), b);
        let e = es.last();
        if e.path.len() > 0 && e.path[0] == b {
            s.push(Entry { path: e.path.drop_first(), line: e.line })
        } else {
            s
        }
    }
}

/// The lines, indented by `ind`, of the entries that are in no folder.
pub open spec fn direct_lines(es: Seq<Entry>, ind: Seq<char>) -> Seq<Seq<char>>
    decreases es.len(),
{
    if es.len() == 0 {
        Seq::empty()
    } else {
        let d = direct_lines(es.drop_last(), ind);
        let e = es.last();
        if e.path.len() == 0 {
            d.push(ind + e.line)
        } else {
            d
        }
    }
}

/// The bookmarks in no folder: their indented lines sorted, each ended by
/// a newline.
pub open spec fn render_syms(ind: Seq<char>, es: Seq<Entry>) -> Seq<char> {
    let l = sort_by(direct_lines(es, ind), lex_le_fn());
    if l.len() == 0 {
        Seq::empty()
    } else {
        join(l, seq!['\n']) + seq!['\n']
    }
}

pub proof fn lemma_weight_sub(es: Seq<Entry>, b: Seq<char>)
    ensures
        weight(sub_entries(es, b)) + sub_entries(es, b).len() <= weight(es),
    decreases es.len(),
{
    if es.len() > 0 {
        let s = sub_entries(es.drop_last(), b);
        let e = es.last();
        lemma_weight_sub(es.drop_last(), b);
        if e.path.len() > 0 && e.path[0] == b {
            let x = Entry { path: e.path.drop_first(), line: e.line };
            assert(s.push(x).drop_last() =~= s);
            assert(weight(s.push(x)) == weight(s) + x.path.len());
        }
    }
}

/// The bookmark file of the entries at indent `ind`: each folder in
/// lexicographic order (its name indented, then its contents one tab
/// deeper), then the bookmarks in no folder.
pub open spec fn render(ind: Seq<char>, es: Seq<Entry>) -> Seq<char>
    decreases weight(es), 1nat, 0nat,
{
    render_branches(ind, es, sort_by(first_names(es), lex_le_fn())) + render_syms(ind, es)
}

/// The folders `names` of the entries, rendered in order.
pub open spec fn render_branches(ind: Seq<char>, es: Seq<Entry>, names: Seq<Seq<char>>) -> Seq<
    char,
>
    decreases weight(es), 0nat, names.len(),
{
    if names.len() == 0 {
        Seq::empty()
    } else {
        let b = names.last();
        let sub = sub_entries(es, b);
        render_branches(ind, es, names.drop_last()) + ind + b + seq!['\n'] + if sub.len() > 0 {
            proof {
                lemma_weight_sub(es, b);
            }
            render(ind.push('\t'), sub)
        } else {
            Seq::empty()
        }
    }
}

/// The folders and the bookmark line of a symbol.
pub open spec fn sym_entry(s: Sym, scope: usize, nest: Option<usize>) -> Entry {
    let nn = nest_name_of(s.name, scope, nest);
    Entry { path: nn.drop_last(), line: symbol_line(s.addr, nn.last(), s.mem) }
}

/// The nested bookmark file of a symbol file: each symbol's name split into
/// folders and a name (see `nest_name_of`), rendered from no indent.
pub open spec fn nester_spec(text: Seq<char>, scope: usize, nest: Option<usize>, filter: Seq<char>) -> Seq<
    char,
> {
    render(Seq::empty(), file_syms(text, filter).map_values(|s: Sym| sym_entry(s, scope, nest)))
}

pub proof fn lemma_nest_name_nonempty(name: Seq<char>, scope: usize, nest: Option<usize>)
    ensures
        nest_name_of(name, scope, nest).len() >= 1,
{
    lemma_pieces_nonempty(name, '.');
}

/// A bookmark to be placed, as characters.
struct NestEntry {
    path: Vec<Vec<char>>,
    line: Vec<char>,
}

spec fn entry_view(e: NestEntry) -> Entry {
    Entry { path: chars_view(e.path@), line: e.line@ }
}

spec fn entries_view(v: Seq<NestEntry>) -> Seq<Entry> {
    v.map_values(|e: NestEntry| entry_view(e))
}

fn branch_names(es: &Vec<NestEntry>) -> (r: Vec<Vec<char>>)
    ensures
        chars_view(r@) == first_names(entries_view(es@)),
{
    let ghost ev = entries_view(es@);
    let mut out: Vec<Vec<char>> = Vec::new();
    let mut i: usize = 0;
    while i < es.len()
        invariant
            i <= es@.len(),
            ev == entries_view(es@),
            chars_view(out@) == first_names(ev.subrange(0, i as int)),
        decreases es@.len() - i,
    {
        assert(ev.subrange(0, i + 1).drop_last() =~= ev.subrange(0, i as int));
        assert(ev.subrange(0, i + 1).last() == entry_view(es@[i as int]));
        let e = &es[i];
        if e.path.len() > 0 {
            assert(entry_view(*e).path[0] == e.path@[0]@);
            let seen = any_piece_is(out.as_slice(), e.path[0].as_slice());
            if !seen {
                let f = e.path[0].clone();
                let ghost before = chars_view(out@);
                out.push(f);
                assert(chars_view(out@) =~= before.push(f@));
            }
        }
        i = i + 1;
    }
    assert(ev.subrange(0, i as int) =~= ev);
    out
}

fn branch_entries(es: &Vec<NestEntry>, b: &Vec<char>) -> (r: Vec<NestEntry>)
    ensures
        entries_view(r@) == sub_entries(entries_view(es@), b@),
{
    let ghost ev = entries_view(es@);
    let mut out: Vec<NestEntry> = Vec::new();
    let mut i: usize = 0;
    while i < es.len()
        invariant
            i <= es@.len(),
            ev == entries_view(es@),
            entries_view(out@) == sub_entries(ev.subrange(0, i as int), b@),
        decreases es@.len() - i,
    {
        assert(ev.subrange(0, i + 1).drop_last() =~= ev.subrange(0, i as int));
        assert(ev.subrange(0, i + 1).last() == entry_view(es@[i as int]));
        let e = &es[i];
        if e.path.len() > 0 {
            assert(entry_view(*e).path[0] == e.path@[0]@);
            if chars_eq(e.path[0].as_slice(), b.as_slice()) {
                let rest = slice_from(&e.path, 1);
                assert(chars_view(rest@) =~= chars_view(e.path@).drop_first());
                let n = NestEntry { path: rest, line: e.line.clone() };
                let ghost before = entries_view(out@);
                out.push(n);
                assert(entries_view(out@) =~= before.push(entry_view(n)));
            }
        }
        i = i + 1;
    }
    assert(ev.subrange(0, i as int) =~= ev);
    out
}

fn leaf_lines(es: &Vec<NestEntry>, ind: &Vec<char>) -> (r: Vec<Vec<char>>)
    ensures
        chars_view(r@) == direct_lines(entries_view(es@), ind@),
{
    let ghost ev = entries_view(es@);
    let mut out: Vec<Vec<char>> = Vec::new();
    let mut i: usize = 0;
    while i < es.len()
        invariant
            i <= es@.len(),
            ev == entries_view(es@),
            chars_view(out@) == direct_lines(ev.subrange(0, i as int), ind@),
        decreases es@.len() - i,
    {
        assert(ev.subrange(0, i + 1).drop_last() =~= ev.subrange(0, i as int));
        assert(ev.subrange(0, i + 1).last() == entry_view(es@[i as int]));
        let e = &es[i];
        if e.path.len() == 0 {
            let mut l = ind.clone();
            append_chars(&mut l, e.line.as_slice());
            let ghost before = chars_view(out@);
            out.push(l);
            assert(chars_view(out@) =~= before.push(l@));
        }
        i = i + 1;
    }
    assert(ev.subrange(0, i as int) =~= ev);
    out
}

/// The bookmark file of the entries at indent `ind`.
fn print_entries(ind: &Vec<char>, es: Vec<NestEntry>) -> (r: Vec<char>)
    ensures
        r@ == render(ind@, entries_view(es@)),
    decreases weight(entries_view(es@)),
{
    let ghost ev = entries_view(es@);
    let names = sort_lines(branch_names(&es));
    let ghost ns = chars_view(names@);
    let mut out: Vec<char> = Vec::new();
    let mut i: usize = 0;
    while i < names.len()
        invariant
            i <= names@.len(),
            ev == entries_view(es@),
            ns == chars_view(names@),
            out@ == render_branches(ind@, ev, ns.subrange(0, i as int)),
        decreases names@.len() - i,
    {
        let b = &names[i];
        assert(ns.subrange(0, i + 1).drop_last() =~= ns.subrange(0, i as int));
        assert(ns.subrange(0, i + 1).last() == b@);
        let sub = branch_entries(&es, b);
        let ghost prev = out@;
        append_chars(&mut out, ind.as_slice());
        append_chars(&mut out, b.as_slice());
        out.push('\n');
        if sub.len() > 0 {
            proof {
                lemma_weight_sub(ev, b@);
            }
            let mut deeper = ind.clone();
            deeper.push('\t');
            let inner = print_entries(&deeper, sub);
            append_chars(&mut out, inner.as_slice());
            assert(out@ =~= prev + ind@ + b@ + seq!['\n'] + render(ind@.push('\t'), sub_entries(ev, b@)));
        } else {
            assert(out@ =~= prev + ind@ + b@ + seq!['\n'] + Seq::<char>::empty());
        }
        i = i + 1;
    }
    assert(ns.subrange(0, i as int) =~= ns);
    let lines = sort_lines(leaf_lines(&es, ind));
    if lines.len() > 0 {
        let nl = ['\n'];
        assert(nl@ =~= seq!['\n']);
        let joined = join_chars(lines.as_slice(), &nl);
        let ghost prev = out@;
        append_chars(&mut out, joined.as_slice());
        out.push('\n');
        assert(out@ =~= prev + render_syms(ind@, ev));
    } else {
        assert(out@ =~= out@ + render_syms(ind@, ev));
    }
    out
}

/// The nested bookmark file of a symbol file: each `{hex address} {name}`
/// line's name is split at `.` into folders and a name, keeping the last
/// `scope` scopes in the name and at most `nest` folders; folders come in
/// name order before the bookmarks beside them, which are sorted.
pub fn nester(text: &str, scope: usize, nest: Option<usize>, data_filter: &str) -> (r: String)
    ensures
        r@ == nester_spec(text@, scope, nest, data_filter@),
{
    let chars = str_chars(text);
    let lines = split_on(chars.as_slice(), '\n');
    let ghost ls = chars_view(lines@);
    let ghost f = |s: Sym| sym_entry(s, scope, nest);
    let mut es: Vec<NestEntry> = Vec::new();
    let mut i: usize = 0;
    while i < lines.len()
        invariant
            i <= lines@.len(),
            ls == chars_view(lines@),
            f == (|s: Sym| sym_entry(s, scope, nest)),
            entries_view(es@) == syms_of(ls.subrange(0, i as int), data_filter@).map_values(f),
        decreases lines@.len() - i,
    {
        assert(ls.subrange(0, i + 1).drop_last() =~= ls.subrange(0, i as int));
        assert(ls.subrange(0, i + 1).last() == lines@[i as int]@);
        let ghost prev = syms_of(ls.subrange(0, i as int), data_filter@);
        let w = split_words(lines[i].as_slice());
        assert(chars_view(w@) == w@.map_values(|x: Vec<char>| x@));
        if w.len() == 2 {
            let mut pair: Vec<String> = Vec::new();
            pair.push(chars_to_string(w[0].as_slice()));
            pair.push(chars_to_string(w[1].as_slice()));
            match scope_and_nest_line(pair, scope, nest, data_filter) {
                Some((mem, addr, names)) => {
                    let ghost s = Sym { addr: addr, name: w@[1]@, mem: mem };
                    proof {
                        lemma_nest_name_nonempty(w@[1]@, scope, nest);
                    }
                    let last = names.len() - 1;
                    let mut path: Vec<Vec<char>> = Vec::new();
                    let mut k: usize = 0;
                    while k < last
                        invariant
                            k <= last,
                            last + 1 == names@.len(),
                            chars_view(path@) == strings_view(names@).subrange(0, k as int),
                        decreases last - k,
                    {
                        let p = str_chars(names[k].as_str());
                        let ghost before = chars_view(path@);
                        path.push(p);
                        assert(chars_view(path@) =~= before.push(p@));
                        k = k + 1;
                        assert(chars_view(path@) =~= strings_view(names@).subrange(0, k as int));
                    }
                    let sym = SymbolInfo::new(addr, names[last].as_str(), mem);
                    let line = sym.print_chars();
                    let e = NestEntry { path: path, line: line };
                    assert(entry_view(e) == f(s));
                    let ghost before = entries_view(es@);
                    es.push(e);
                    assert(entries_view(es@) =~= before.push(f(s)));
                    assert(prev.push(s).map_values(f) =~= prev.map_values(f).push(f(s)));
                },
                None => {},
            }
        }
        i = i + 1;
    }
    assert(ls.subrange(0, i as int) =~= ls);
    let empty: Vec<char> = Vec::new();
    let out = print_entries(&empty, es);
    chars_to_string(out.as_slice())
}

/// With a nest of 0 a symbol's name is one piece: the whole name.
proof fn lemma_nest_zero_name(name: Seq<char>, scope: usize)
    ensures
        nest_name_of(name, scope, Some(0usize)) == seq![name],
{
    let ps = pieces(name, '.');
    lemma_pieces_nonempty(name, '.');
    lemma_join_pieces(name, '.');
    let n = ps.len() as int;
    let k = if scope < n - 1 {
        scope as int
    } else {
        n - 1
    };
    let m = n - 1 - k;
    let e = scoped(ps, scope as int);
    assert(e == ps.subrange(0, m) + seq![join(ps.subrange(m, n), seq!['.'])]);
    if k == n - 1 {
        assert(ps.subrange(m, n) =~= ps);
        assert(e =~= seq![name]);
    } else {
        assert(e.len() > 1);
        lemma_join_nested(ps.subrange(0, m), ps.subrange(m, n), seq!['.']);
        assert(ps.subrange(0, m).push(join(ps.subrange(m, n), seq!['.'])) =~= e);
        assert(ps.subrange(0, m) + ps.subrange(m, n) =~= ps);
        assert(join(e, seq!['.']) == name);
        assert(e.subrange(0, e.len() as int) =~= e);
        assert(e.subrange(0, 0) + seq![join(e.subrange(0, e.len() as int), seq!['.'])] =~= seq![
            name,
        ]);
    }
}

/// Entries in no folder name no folder.
proof fn lemma_no_folders(es: Seq<Entry>)
    requires
        forall|i: int| 0 <= i < es.len() ==> (#[trigger] es[i]).path.len() == 0,
    ensures
        first_names(es) == Seq::<Seq<char>>::empty(),
        direct_lines(es, Seq::empty()) == es.map_values(|e: Entry| e.line),
    decreases es.len(),
{
    if es.len() > 0 {
        lemma_no_folders(es.drop_last());
        assert(es.drop_last().map_values(|e: Entry| e.line).push(es.last().line) =~= es.map_values(
            |e: Entry| e.line,
        ));
        assert(Seq::<char>::empty() + es.last().line =~= es.last().line);
    }
}

/// With a nest of 0 no symbol goes into a folder: the nested bookmark file
/// is every symbol's bookmark line with its whole name, sorted, one per line.
pub proof fn lemma_nest_zero_is_flat(text: Seq<char>, scope: usize, filter: Seq<char>)
    ensures
        nester_spec(text, scope, Some(0usize), filter) == ({
            let l = sort_by(sym_lines(file_syms(text, filter)), lex_le_fn());
            if l.len() == 0 {
                Seq::empty()
            } else {
                join(l, seq!['\n']) + seq!['\n']
            }
        }),
{
    let syms = file_syms(text, filter);
    let es = syms.map_values(|s: Sym| sym_entry(s, scope, Some(0usize)));
    assert forall|i: int| 0 <= i < es.len() implies (#[trigger] es[i]).path.len() == 0
        && es[i].line == symbol_line(syms[i].addr, syms[i].name, syms[i].mem) by {
        lemma_nest_zero_name(syms[i].name, scope);
    }
    lemma_no_folders(es);
    assert(es.map_values(|e: Entry| e.line) =~= sym_lines(syms));
    assert(render_branches(Seq::empty(), es, sort_by(first_names(es), lex_le_fn()))
        == Seq::<char>::empty());
    assert(render(Seq::empty(), es) =~= render_syms(Seq::empty(), es));
}

/// The symbols of the lines are the lines filtered by `line_sym`.
proof fn lemma_syms_of_filter(lines: Seq<Seq<char>>, filter: Seq<char>)
    ensures
        syms_of(lines, filter) == filter_map(lines, |l: Seq<char>| line_sym(l, filter)),
    decreases lines.len(),
{
    if lines.len() > 0 {
        lemma_syms_of_filter(lines.drop_last(), filter);
    }
}

/// The entries of a folder are the entries filtered by their first folder.
proof fn lemma_sub_entries_filter(es: Seq<Entry>, b: Seq<char>)
    ensures
        sub_entries(es, b) == filter_map(es, |e: Entry| if e.path.len() > 0 && e.path[0] == b {
            Some(Entry { path: e.path.drop_first(), line: e.line })
        } else {
            None
        }),
    decreases es.len(),
{
    if es.len() > 0 {
        lemma_sub_entries_filter(es.drop_last(), b);
    }
}

/// The lines in no folder are the entries filtered by an empty path.
proof fn lemma_direct_lines_filter(es: Seq<Entry>, ind: Seq<char>)
    ensures
        direct_lines(es, ind) == filter_map(es, |e: Entry| if e.path.len() == 0 {
            Some(ind + e.line)
        } else {
            None
        }),
    decreases es.len(),
{
    if es.len() > 0 {
        lemma_direct_lines_filter(es.drop_last(), ind);
    }
}

/// The first folders of the entries: each once, and those of the entries
/// in a folder.
proof fn lemma_first_names(es: Seq<Entry>)
    ensures
        first_names(es).no_duplicates(),
        forall|n: Seq<char>|
            #[trigger] first_names(es).contains(n) <==> exists|k: int|
                0 <= k < es.len() && (#[trigger] es[k]).path.len() > 0 && es[k].path[0] == n,
    decreases es.len(),
{
    if es.len() > 0 {
        let d = es.drop_last();
        lemma_first_names(d);
        let f = first_names(d);
        let e = es.last();
        assert forall|n: Seq<char>| #[trigger] first_names(es).contains(n) <==> exists|k: int|
            0 <= k < es.len() && (#[trigger] es[k]).path.len() > 0 && es[k].path[0] == n by {
            if exists|k: int| 0 <= k < es.len() && (#[trigger] es[k]).path.len() > 0 && es[k].path[0]
                == n {
                let k = choose|k: int|
                    0 <= k < es.len() && (#[trigger] es[k]).path.len() > 0 && es[k].path[0] == n;
                if k < es.len() - 1 {
                    assert(d[k] == es[k]);
                    assert(f.contains(n));
                }
                if e.path.len() > 0 && !f.contains(e.path[0]) {
                    if f.contains(n) {
                        let j = choose|j: int| 0 <= j < f.len() && f[j] == n;
                        assert(f.push(e.path[0])[j] == n);
                    }
                    if k == es.len() - 1 {
                        assert(f.push(e.path[0])[f.len() as int] == n);
                    }
                }
            }
            if first_names(es).contains(n) {
                if e.path.len() > 0 && !f.contains(e.path[0]) && n == e.path[0] {
                    assert(es[es.len() - 1] == e);
                } else {
                    assert(f.contains(n)) by {
                        if e.path.len() > 0 && !f.contains(e.path[0]) {
                            let j = choose|j: int| 0 <= j < f.push(e.path[0]).len() && f.push(e.path[0])[j] == n;
                            assert(j < f.len());
                            assert(f[j] == n);
                        }
                    }
                    let k = choose|k: int|
                        0 <= k < d.len() && (#[trigger] d[k]).path.len() > 0 && d[k].path[0] == n;
                    assert(es[k] == d[k]);
                }
            }
        }
    }
}

/// Entries that hold the same elements name the same first folders, each
/// once.
proof fn lemma_first_names_permutation(es1: Seq<Entry>, es2: Seq<Entry>)
    requires
        es1.to_multiset() == es2.to_multiset(),
    ensures
        first_names(es1).to_multiset() == first_names(es2).to_multiset(),
{
    broadcast use group_to_multiset_ensures;
    broadcast use group_multiset_axioms;

    lemma_first_names(es1);
    lemma_first_names(es2);
    let f1 = first_names(es1);
    let f2 = first_names(es2);
    assert forall|n: Seq<char>| f1.contains(n) <==> f2.contains(n) by {
        if f1.contains(n) {
            let k = choose|k: int|
                0 <= k < es1.len() && (#[trigger] es1[k]).path.len() > 0 && es1[k].path[0] == n;
            assert(es1.contains(es1[k]));
            assert(es2.to_multiset().count(es1[k]) > 0);
            assert(es2.contains(es1[k]));
            let j = choose|j: int| 0 <= j < es2.len() && es2[j] == es1[k];
            assert(es2[j].path.len() > 0 && es2[j].path[0] == n);
        }
        if f2.contains(n) {
            let k = choose|k: int|
                0 <= k < es2.len() && (#[trigger] es2[k]).path.len() > 0 && es2[k].path[0] == n;
            assert(es2.contains(es2[k]));
            assert(es1.to_multiset().count(es2[k]) > 0);
            assert(es1.contains(es2[k]));
            let j = choose|j: int| 0 <= j < es1.len() && es1[j] == es2[k];
            assert(es1[j].path.len() > 0 && es1[j].path[0] == n);
        }
    }
    f1.lemma_multiset_has_no_duplicates();
    f2.lemma_multiset_has_no_duplicates();
    assert forall|n: Seq<char>| f1.to_multiset().count(n) == f2.to_multiset().count(n) by {
        if f1.contains(n) {
            assert(f1.to_multiset().contains(n));
            assert(f2.to_multiset().contains(n));
        }
    }
    assert(f1.to_multiset() =~= f2.to_multiset());
}

/// The bookmark file of entries that hold the same elements in another
/// order is the same.
proof fn lemma_render_permutation(ind: Seq<char>, es1: Seq<Entry>, es2: Seq<Entry>)
    requires
        es1.to_multiset() == es2.to_multiset(),
    ensures
        render(ind, es1) == render(ind, es2),
    decreases weight(es1), 1nat, 0nat,
{
    lemma_lex_total_order();
    lemma_first_names_permutation(es1, es2);
    lemma_sort_by_permutation(first_names(es1), first_names(es2), lex_le_fn());
    let names = sort_by(first_names(es1), lex_le_fn());
    lemma_branches_permutation(ind, es1, es2, names);
    lemma_direct_lines_filter(es1, ind);
    lemma_direct_lines_filter(es2, ind);
    lemma_filter_map_permutation(es1, es2, |e: Entry| if e.path.len() == 0 {
        Some(ind + e.line)
    } else {
        None
    });
    lemma_sort_by_permutation(direct_lines(es1, ind), direct_lines(es2, ind), lex_le_fn());
}

/// The folders of entries that hold the same elements in another order are
/// rendered the same.
proof fn lemma_branches_permutation(
    ind: Seq<char>,
    es1: Seq<Entry>,
    es2: Seq<Entry>,
    names: Seq<Seq<char>>,
)
    requires
        es1.to_multiset() == es2.to_multiset(),
    ensures
        render_branches(ind, es1, names) == render_branches(ind, es2, names),
    decreases weight(es1), 0nat, names.len(),
{
    broadcast use group_to_multiset_ensures;

    if names.len() > 0 {
        lemma_branches_permutation(ind, es1, es2, names.drop_last());
        let b = names.last();
        let sub1 = sub_entries(es1, b);
        let sub2 = sub_entries(es2, b);
        lemma_sub_entries_filter(es1, b);
        lemma_sub_entries_filter(es2, b);
        lemma_filter_map_permutation(es1, es2, |e: Entry| if e.path.len() > 0 && e.path[0] == b {
            Some(Entry { path: e.path.drop_first(), line: e.line })
        } else {
            None
        });
        assert(sub1.len() == sub2.len()) by {
            vstd::seq_lib::to_multiset_len(sub1);
            vstd::seq_lib::to_multiset_len(sub2);
        }
        if sub1.len() > 0 {
            lemma_weight_sub(es1, b);
            lemma_render_permutation(ind.push('\t'), sub1, sub2);
        }
    }
}

/// The non-empty lines of a text, in order.
pub open spec fn filled_lines(t: Seq<char>) -> Seq<Seq<char>> {
    filter_map(pieces(t, '\n'), |l: Seq<char>| if l.len() > 0 { Some(l) } else { None })
}

/// Filtering out empty lines first does not change the symbols read.
proof fn lemma_syms_skip_empty(lines: Seq<Seq<char>>, filter: Seq<char>)
    ensures
        filter_map(lines, |l: Seq<char>| line_sym(l, filter)) == filter_map(
            filter_map(lines, |l: Seq<char>| if l.len() > 0 { Some(l) } else { None }),
            |l: Seq<char>| line_sym(l, filter),
        ),
    decreases lines.len(),
{
    if lines.len() > 0 {
        lemma_syms_skip_empty(lines.drop_last(), filter);
        let l = lines.last();
        if l.len() == 0 {
            assert(words(l) =~= Seq::<Seq<char>>::empty());
        } else {
            let nz = filter_map(lines.drop_last(), |l: Seq<char>| if l.len() > 0 { Some(l) } else { None });
            assert(nz.push(l).drop_last() =~= nz);
        }
    }
}

/// The order of the lines of a symbol file does not matter, nor do empty
/// lines: symbol files whose non-empty lines are the same, each as often,
/// in any order, give the same nested bookmark file.
pub proof fn lemma_nester_line_order(
    t1: Seq<char>,
    t2: Seq<char>,
    scope: usize,
    nest: Option<usize>,
    filter: Seq<char>,
)
    requires
        filled_lines(t1).to_multiset() == filled_lines(t2).to_multiset(),
    ensures
        nester_spec(t1, scope, nest, filter) == nester_spec(t2, scope, nest, filter),
{
    let l1 = pieces(t1, '\n');
    let l2 = pieces(t2, '\n');
    let pick = |l: Seq<char>| line_sym(l, filter);
    lemma_syms_of_filter(l1, filter);
    lemma_syms_of_filter(l2, filter);
    lemma_syms_skip_empty(l1, filter);
    lemma_syms_skip_empty(l2, filter);
    lemma_filter_map_permutation(filled_lines(t1), filled_lines(t2), pick);
    let s1 = file_syms(t1, filter);
    let s2 = file_syms(t2, filter);
    let g = |s: Sym| sym_entry(s, scope, nest);
    let keep = |a: Sym| Some(g(a));
    lemma_map_values_filter_map(s1, g);
    lemma_map_values_filter_map(s2, g);
    lemma_filter_map_permutation(s1, s2, keep);
    let es1 = s1.map_values(g);
    let es2 = s2.map_values(g);
    lemma_render_permutation(Seq::empty(), es1, es2);
    assert(s1.map_values(|s: Sym| sym_entry(s, scope, nest)) =~= es1);
    assert(s2.map_values(|s: Sym| sym_entry(s, scope, nest)) =~= es2);
}

} // verus!
