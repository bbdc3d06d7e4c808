//! Assembly of the terrain's shader text from snippets.
//!
//! A shader source is cut at every `//INSERT:` marker. The first piece is
//! the text before any marker; every later piece starts with the id of a
//! snippet on its first line, followed by the text that comes after it.
//! Texts are sequences of characters.
use vstd::prelude::*;

verus! {

/// The marker that starts an insert.
pub open spec fn insert_marker() -> Seq<char> {
    seq!['/', '/', 'I', 'N', 'S', 'E', 'R', 'T', ':']
}

/// Whether `m` occurs in `s` at position `j`.
pub open spec fn matches_at(s: Seq<char>, m: Seq<char>, j: int) -> bool {
    0 <= j && j + m.len() <= s.len() && s.subrange(j, j + m.len()) == m
}

/// `s` cut at every occurrence of `m`, scanning from position `i` with the
/// current piece begun at `start`; occurrences do not overlap.
pub open spec fn split_scan(s: Seq<char>, m: Seq<char>, start: int, i: int) -> Seq<Seq<char>>
    decreases s.len() - i,
{
    if m.len() == 0 || i < 0 || i + m.len() > s.len() {
        seq![s.subrange(start, s.len() as int)]
    } else if matches_at(s, m, i) {
        seq![s.subrange(start, i)] + split_scan(s, m, i + m.len(), i + m.len())
    } else {
        split_scan(s, m, start, i + 1)
    }
}

/// `s` cut at every occurrence of the non-empty `m`.
pub open spec fn split_on(s: Seq<char>, m: Seq<char>) -> Seq<Seq<char>> {
    split_scan(s, m, 0, 0)
}

/// Position of the first `c` in `s` at or after `i`.
pub open spec fn index_of_from(s: Seq<char>, c: char, i: int) -> Option<int>
    decreases s.len() - i,
{
    if i < 0 || i >= s.len() {
        None
    } else if s[i] == c {
        Some(i)
    } else {
        index_of_from(s, c, i + 1)
    }
}

/// Position of the first line break in `s`.
pub open spec fn line_break(s: Seq<char>) -> Option<int> {
    index_of_from(s, '\n', 0)
}

/// The characters with the Unicode `White_Space` property.
pub open spec fn is_white_space(c: char) -> bool {
    ('\t' <= c && c <= '\r') || c == ' ' || c == '\u{85}' || c == '\u{a0}' || c == '\u{1680}'
        || ('\u{2000}' <= c && c <= '\u{200a}') || c == '\u{2028}' || c == '\u{2029}'
        || c == '\u{202f}' || c == '\u{205f}' || c == '\u{3000}'
}

pub open spec fn trim_start(s: Seq<char>) -> Seq<char>
    decreases s.len(),
{
    if s.len() > 0 && is_white_space(s[0]) {
        trim_start(s.drop_first())
    } else {
        s
    }
}

pub open spec fn trim_end(s: Seq<char>) -> Seq<char>
    decreases s.len(),
{
    if s.len() > 0 && is_white_space(s.last()) {
        trim_end(s.drop_last())
    } else {
        s
    }
}

/// `s` without its leading and trailing white space.
pub open spec fn trim(s: Seq<char>) -> Seq<char> {
    trim_end(trim_start(s))
}

pub open spec fn starts_with(s: Seq<char>, p: Seq<char>) -> bool {
    p.len() <= s.len() && s.subrange(0, p.len() as int) == p
}

/// Whether `c` has the Unicode `White_Space` property.
fn white_space(c: char) -> (r: bool)
    ensures
        r == is_white_space(c),
{
    ('\t' <= c && c <= '\r') || c == ' ' || c == '\u{85}' || c == '\u{a0}' || c == '\u{1680}'
        || ('\u{2000}' <= c && c <= '\u{200a}') || c == '\u{2028}' || c == '\u{2029}'
        || c == '\u{202f}' || c == '\u{205f}' || c == '\u{3000}'
}

/// A copy of `s[a..b]`.
fn copy_range(s: &Vec<char>, a: usize, b: usize) -> (r: Vec<char>)
    requires
        a <= b <= s@.len(),
    ensures
        r@ == s@.subrange(a as int, b as int),
{
    let mut r: Vec<char> = Vec::new();
    let mut i = a;
    while i < b
        invariant
            a <= i <= b <= s@.len(),
            r@ == s@.subrange(a as int, i as int),
        decreases b - i,
    {
        r.push(s[i]);
        i += 1;
        assert(r@ =~= s@.subrange(a as int, i as int));
    }
    r
}

/// Appends all of `s` to `out`.
fn append_chars(out: &mut Vec<char>, s: &Vec<char>)
    ensures
        final(out)@ == old(out)@ + s@,
{
    let mut i: usize = 0;
    while i < s.len()
        invariant
            i <= s@.len(),
            out@ == old(out)@ + s@.subrange(0, i as int),
        decreases s@.len() - i,
    {
        out.push(s[i]);
        i += 1;
        assert(out@ =~= old(out)@ + s@.subrange(0, i as int));
    }
    assert(s@.subrange(0, s@.len() as int) =~= s@);
}

/// Whether `m` occurs in `s` at position `j`.
fn match_at(s: &Vec<char>, m: &Vec<char>, j: usize) -> (r: bool)
    requires
        j + m@.len() <= s@.len(),
    ensures
        r == matches_at(s@, m@, j as int),
{
    let n = s.len();
    let mut k: usize = 0;
    while k < m.len()
        invariant
            n == s@.len(),
            j + m@.len() <= s@.len(),
            k <= m@.len(),
            forall|q: int| 0 <= q < k ==> s@[j + q] == m@[q],
        decreases m@.len() - k,
    {
        if s[j + k] != m[k] {
            assert(s@.subrange(j as int, j + m@.len())[k as int] != m@[k as int]);
            return false;
        }
        k += 1;
    }
    assert(s@.subrange(j as int, j + m@.len()) =~= m@);
    true
}

/// `s` cut at every occurrence of the non-empty `m`.
fn split_text(s: &Vec<char>, m: &Vec<char>) -> (r: Vec<Vec<char>>)
    requires
        m@.len() > 0,
    ensures
        r@.map_values(|v: Vec<char>| v@) == split_on(s@, m@),
        r@.len() >= 1,
{
    let mut r: Vec<Vec<char>> = Vec::new();
    let mut start: usize = 0;
    let mut i: usize = 0;
    while m.len() <= s.len() - i
        invariant
            m@.len() > 0,
            start <= i <= s@.len(),
            r@.map_values(|v: Vec<char>| v@) + split_scan(s@, m@, start as int, i as int) == split_on(s@, m@),
        decreases s@.len() - i,
    {
        if match_at(s, m, i) {
            let piece = copy_range(s, start, i);
            let ghost old_r = r@;
            r.push(piece);
            assert(r@.map_values(|v: Vec<char>| v@) =~= old_r.map_values(|v: Vec<char>| v@).push(piece@));
            i = i + m.len();
            start = i;
        } else {
            i = i + 1;
        }
    }
    let ghost old_r = r@;
    let last = copy_range(s, start, s.len());
    r.push(last);
    assert(r@.map_values(|v: Vec<char>| v@) =~= old_r.map_values(|v: Vec<char>| v@).push(last@));
    r
}


/// Position of the first line break in `s`.
fn find_line_break(s: &Vec<char>) -> (r: Option<usize>)
    ensures
        r matches Some(j) ==> line_break(s@) == Some(j as int),
        r is None ==> line_break(s@) is None,
{
    let mut i: usize = 0;
    while i < s.len()
        invariant
            i <= s@.len(),
            line_break(s@) == index_of_from(s@, '\n', i as int),
        decreases s@.len() - i,
    {
        if s[i] == '\n' {
            return Some(i);
        }
        i += 1;
    }
    None
}

/// `s` without its leading and trailing white space.
fn trim_chars(s: &Vec<char>) -> (r: Vec<char>)
    ensures
        r@ == trim(s@),
{
    let n = s.len();
    let mut a: usize = 0;
    assert(s@.subrange(0, n as int) =~= s@);
    while a < n && white_space(s[a])
        invariant
            n == s@.len(),
            a <= n,
            trim_start(s@) == trim_start(s@.subrange(a as int, n as int)),
        decreases n - a,
    {
        assert(s@.subrange(a as int, n as int).drop_first() =~= s@.subrange(a + 1, n as int));
        a += 1;
    }
    assert(trim_start(s@) == s@.subrange(a as int, n as int));
    let mut b: usize = n;
    while b > a && white_space(s[b - 1])
        invariant
            n == s@.len(),
            a <= b <= n,
            trim(s@) == trim_end(s@.subrange(a as int, b as int)),
        decreases b - a,
    {
        assert(s@.subrange(a as int, b as int).drop_last() =~= s@.subrange(a as int, b - 1));
        b -= 1;
    }
    copy_range(s, a, b)
}

/// Whether `s` begins with `p`.
fn has_prefix(s: &Vec<char>, p: &Vec<char>) -> (r: bool)
    ensures
        r == starts_with(s@, p@),
{
    if p.len() > s.len() {
        false
    } else {
        let r = match_at(s, p, 0);
        assert(p@.len() == 0 + p@.len());
        r
    }
}


/// Whether the two texts are equal.
fn same_text(a: &Vec<char>, b: &Vec<char>) -> (r: bool)
    ensures
        r == (a@ == b@),
{
    if a.len() != b.len() {
        false
    } else {
        let r = match_at(a, b, 0);
        assert(a@.subrange(0, b@.len() as int) =~= a@);
        r
    }
}

/// The map a list of `(id, code)` entries stands for, later entries
/// overriding earlier ones.
pub open spec fn entries_map(es: Seq<(Seq<char>, Seq<char>)>) -> Map<Seq<char>, Seq<char>>
    decreases es.len(),
{
    if es.len() == 0 {
        Map::empty()
    } else {
        entries_map(es.drop_last()).insert(es.last().0, es.last().1)
    }
}

pub open spec fn unique_ids(es: Seq<(Seq<char>, Seq<char>)>) -> bool {
    forall|i: int, j: int| 0 <= i < j < es.len() ==> #[trigger] es[i].0 != #[trigger] es[j].0
}

proof fn lemma_entries_lookup(es: Seq<(Seq<char>, Seq<char>)>, i: int)
    requires
        unique_ids(es),
        0 <= i < es.len(),
    ensures
        entries_map(es).contains_key(es[i].0),
        entries_map(es)[es[i].0] == es[i].1,
    decreases es.len(),
{
    if i < es.len() - 1 {
        let d = es.drop_last();
        assert(d[i] == es[i]);
        assert(unique_ids(d)) by {
            assert forall|a: int, b: int| 0 <= a < b < d.len() implies #[trigger] d[a].0 != #[trigger] d[b].0 by {
                assert(d[a] == es[a] && d[b] == es[b]);
            }
        }
        lemma_entries_lookup(d, i);
        assert(es.last() == es[es.len() - 1]);
    }
}

proof fn lemma_entries_absent(es: Seq<(Seq<char>, Seq<char>)>, k: Seq<char>)
    requires
        forall|i: int| 0 <= i < es.len() ==> (#[trigger] es[i]).0 != k,
    ensures
        !entries_map(es).contains_key(k),
    decreases es.len(),
{
    if es.len() > 0 {
        let d = es.drop_last();
        assert forall|i: int| 0 <= i < d.len() implies (#[trigger] d[i]).0 != k by {
            assert(d[i] == es[i]);
        }
        lemma_entries_absent(d, k);
        assert(es.last() == es[es.len() - 1]);
    }
}

proof fn lemma_entries_update(es: Seq<(Seq<char>, Seq<char>)>, i: int, v: Seq<char>)
    requires
        unique_ids(es),
        0 <= i < es.len(),
    ensures
        entries_map(es.update(i, (es[i].0, v))) == entries_map(es).insert(es[i].0, v),
    decreases es.len(),
{
    let k = es[i].0;
    let u = es.update(i, (k, v));
    let d = es.drop_last();
    if i == es.len() - 1 {
        assert(u.drop_last() =~= d);
        assert(entries_map(u) =~= entries_map(es).insert(k, v));
    } else {
        assert(u.drop_last() =~= d.update(i, (k, v)));
        assert(d[i] == es[i]);
        assert(unique_ids(d)) by {
            assert forall|a: int, b: int| 0 <= a < b < d.len() implies #[trigger] d[a].0 != #[trigger] d[b].0 by {
                assert(d[a] == es[a] && d[b] == es[b]);
            }
        }
        lemma_entries_update(d, i, v);
        assert(es.last() == es[es.len() - 1]);
        assert(u.last() == es.last());
        assert(es.last().0 != k);
        assert(entries_map(u) =~= entries_map(es).insert(k, v));
    }
}

/// The named shader snippets: each id names one piece of code.
pub struct ShaderSnippets {
    entries: Vec<(Vec<char>, Vec<char>)>,
}

pub open spec fn entry_views(es: Seq<(Vec<char>, Vec<char>)>) -> Seq<(Seq<char>, Seq<char>)> {
    es.map_values(|e: (Vec<char>, Vec<char>)| (e.0@, e.1@))
}

impl View for ShaderSnippets {
    type V = Map<Seq<char>, Seq<char>>;

    closed spec fn view(&self) -> Map<Seq<char>, Seq<char>> {
        entries_map(entry_views(self.entries@))
    }
}

impl ShaderSnippets {
    /// Each id names at most one entry.
    pub closed spec fn wf(&self) -> bool {
        unique_ids(entry_views(self.entries@))
    }

    /// An empty table.
    pub fn new() -> (r: Self)
        ensures
            r.wf(),
            r@ == Map::<Seq<char>, Seq<char>>::empty(),
    {
        let r = ShaderSnippets { entries: Vec::new() };
        assert(entry_views(r.entries@) =~= Seq::<(Seq<char>, Seq<char>)>::empty());
        r
    }

    /// Slot of the entry named `id`.
    fn find(&self, id: &Vec<char>) -> (r: Option<usize>)
        ensures
            r matches Some(i) ==> i < self.entries@.len() && self.entries@[i as int].0@ == id@,
            r is None ==> forall|i: int| 0 <= i < self.entries@.len() ==> (#[trigger] self.entries@[i]).0@ != id@,
    {
        let mut i: usize = 0;
        while i < self.entries.len()
            invariant
                i <= self.entries@.len(),
                forall|j: int| 0 <= j < i ==> (#[trigger] self.entries@[j]).0@ != id@,
            decreases self.entries@.len() - i,
        {
            if same_text(&self.entries[i].0, id) {
                return Some(i);
            }
            i += 1;
        }
        None
    }

    /// Names `code` by `id`, replacing what `id` named before.
    pub fn insert(&mut self, id: Vec<char>, code: Vec<char>)
        requires
            old(self).wf(),
        ensures
            final(self).wf(),
            final(self)@ == old(self)@.insert(id@, code@),
    {
        let ghost ev = entry_views(self.entries@);
        match self.find(&id) {
            Some(i) => {
                proof {
                    assert(ev[i as int].0 == id@);
                    lemma_entries_update(ev, i as int, code@);
                }
                self.entries.set(i, (id, code));
                assert(entry_views(self.entries@) =~= ev.update(i as int, (ev[i as int].0, code@)));
            },
            None => {
                let ghost e = (id@, code@);
                self.entries.push((id, code));
                assert(entry_views(self.entries@) =~= ev.push(e));
                assert(entry_views(self.entries@).drop_last() =~= ev);
                proof {
                    assert forall|a: int, b: int| 0 <= a < b < entry_views(self.entries@).len()
                        implies #[trigger] entry_views(self.entries@)[a].0 != #[trigger] entry_views(self.entries@)[b].0 by {
                        if b == ev.len() {
                            assert(self.entries@[a].0@ != id@);
                        } else {
                            assert(entry_views(self.entries@)[a] == ev[a]);
                            assert(entry_views(self.entries@)[b] == ev[b]);
                        }
                    }
                }
            },
        }
    }

    /// The code named `id`, if any.
    pub fn get(&self, id: &Vec<char>) -> (r: Option<&Vec<char>>)
        requires
            self.wf(),
        ensures
            r matches Some(v) ==> self@.contains_key(id@) && v@ == self@[id@],
            r is None ==> !self@.contains_key(id@),
    {
        let ghost ev = entry_views(self.entries@);
        match self.find(id) {
            Some(i) => {
                proof {
                    lemma_entries_lookup(ev, i as int);
                }
                Some(&self.entries[i].1)
            },
            None => {
                proof {
                    assert forall|j: int| 0 <= j < ev.len() implies (#[trigger] ev[j]).0 != id@ by {
                        assert(self.entries@[j].0@ != id@);
                    }
                    lemma_entries_absent(ev, id@);
                }
                None
            },
        }
    }

    /// Whether some code is named `id`.
    pub fn contains(&self, id: &Vec<char>) -> (r: bool)
        requires
            self.wf(),
        ensures
            r == self@.contains_key(id@),
    {
        self.get(id).is_some()
    }
}


// ------------------------------------------------------------- reading

/// The table after reading one insert piece: its trimmed first line names
/// the rest, when both are non-empty; a piece without a line break is
/// passed over.
pub open spec fn read_piece(m: Map<Seq<char>, Seq<char>>, p: Seq<char>) -> Map<Seq<char>, Seq<char>> {
    match line_break(p) {
        None => m,
        Some(j) => {
            let id = trim(p.subrange(0, j));
            let body = p.subrange(j + 1, p.len() as int);
            if id.len() > 0 && body.len() > 0 {
                m.insert(id, body)
            } else {
                m
            }
        },
    }
}

pub open spec fn read_pieces(m: Map<Seq<char>, Seq<char>>, ps: Seq<Seq<char>>) -> Map<Seq<char>, Seq<char>>
    decreases ps.len(),
{
    if ps.len() == 0 {
        m
    } else {
        read_piece(read_pieces(m, ps.drop_last()), ps.last())
    }
}

/// The table after reading `source` under `name`: the text before the
/// first marker is named `name`, and every insert piece after it is read
/// in turn. An empty name reads nothing.
pub open spec fn parsed(m: Map<Seq<char>, Seq<char>>, source: Seq<char>, name: Seq<char>) -> Map<Seq<char>, Seq<char>> {
    if name.len() == 0 {
        m
    } else {
        let ps = split_on(source, insert_marker());
        read_pieces(m.insert(name, ps[0]), ps.drop_first())
    }
}

fn marker_chars() -> (r: Vec<char>)
    ensures
        r@ == insert_marker(),
{
    let r = vec!['/', '/', 'I', 'N', 'S', 'E', 'R', 'T', ':'];
    assert(r@ =~= insert_marker());
    r
}

/// The trimmed id line and the body of an insert piece, if it has a line
/// break.
fn split_piece(p: &Vec<char>) -> (r: Option<(Vec<char>, Vec<char>)>)
    ensures
        r is None <==> line_break(p@) is None,
        r matches Some(x) ==> x.0@ == trim(p@.subrange(0, line_break(p@)->0))
            && x.1@ == p@.subrange(line_break(p@)->0 + 1, p@.len() as int),
{
    match find_line_break(p) {
        None => None,
        Some(j) => {
            proof {
                lemma_index_of_bounds(p@, '\n', 0);
            }
            let n = p.len();
            let line = copy_range(p, 0, j);
            let id = trim_chars(&line);
            let body = copy_range(p, j + 1, n);
            Some((id, body))
        },
    }
}

proof fn lemma_index_of_bounds(s: Seq<char>, c: char, i: int)
    ensures
        index_of_from(s, c, i) matches Some(j) ==> i <= j < s.len() && s[j] == c,
    decreases s.len() - i,
{
    if 0 <= i < s.len() && s[i] != c {
        lemma_index_of_bounds(s, c, i + 1);
    }
}

impl ShaderSnippets {
    /// Reads the snippets of `source`: the text before the first marker is
    /// named `name`, and each insert piece after it names its body by its
    /// id line. Returns whether anything was read, which needs a name.
    pub fn parse_shader(&mut self, source: &Vec<char>, name: &Vec<char>) -> (r: bool)
        requires
            old(self).wf(),
        ensures
            final(self).wf(),
            r == (name@.len() > 0),
            final(self)@ == parsed(old(self)@, source@, name@),
    {
        if name.len() == 0 {
            return false;
        }
        let marker = marker_chars();
        let pieces = split_text(source, &marker);
        let ghost ps = split_on(source@, insert_marker());
        assert(pieces@[0]@ == ps[0]);
        let head = copy_range(&pieces[0], 0, pieces[0].len());
        assert(head@ =~= ps[0]);
        let name_copy = copy_range(name, 0, name.len());
        assert(name_copy@ =~= name@);
        self.insert(name_copy, head);
        let ghost start = old(self)@.insert(name@, ps[0]);
        let mut k: usize = 1;
        while k < pieces.len()
            invariant
                self.wf(),
                1 <= k <= pieces@.len(),
                pieces@.len() == ps.len(),
                forall|q: int| 0 <= q < ps.len() ==> (#[trigger] pieces@[q])@ == ps[q],
                self@ == read_pieces(start, ps.drop_first().take(k - 1)),
            decreases pieces@.len() - k,
        {
            assert(ps.drop_first().take(k as int).drop_last() =~= ps.drop_first().take(k - 1));
            assert(ps.drop_first().take(k as int).last() == ps[k as int]);
            match split_piece(&pieces[k]) {
                None => {},
                Some((id, body)) => {
                    if id.len() > 0 && body.len() > 0 {
                        self.insert(id, body);
                    }
                },
            }
            k += 1;
        }
        assert(ps.drop_first().take(k - 1) =~= ps.drop_first());
        true
    }
}


// ----------------------------------------------------------- expansion

pub open spec fn debug_prefix() -> Seq<char> {
    seq!['D', 'E', 'B', 'U', 'G', '_']
}

pub open spec fn editor_prefix() -> Seq<char> {
    seq!['E', 'D', 'I', 'T', 'O', 'R', '_']
}

/// Whether the insert `id` is filled in: it is named, is no debug or
/// editor insert, is not excluded, and the table holds it.
pub open spec fn included(m: Map<Seq<char>, Seq<char>>, excludes: Seq<Seq<char>>, id: Seq<char>) -> bool {
    &&& id.len() > 0
    &&& !starts_with(id, debug_prefix())
    &&& !starts_with(id, editor_prefix())
    &&& !excludes.contains(id)
    &&& m.contains_key(id)
}

/// An insert piece expanded: the named code when it is filled in, then the
/// text after the id line. A piece without a line break yields nothing.
pub open spec fn expand_piece(m: Map<Seq<char>, Seq<char>>, excludes: Seq<Seq<char>>, p: Seq<char>) -> Seq<char> {
    match line_break(p) {
        None => Seq::empty(),
        Some(j) => {
            let id = trim(p.subrange(0, j));
            (if included(m, excludes, id) { m[id] } else { Seq::empty() }) + p.subrange(j + 1, p.len() as int)
        },
    }
}

pub open spec fn expand_pieces(m: Map<Seq<char>, Seq<char>>, excludes: Seq<Seq<char>>, ps: Seq<Seq<char>>) -> Seq<char>
    decreases ps.len(),
{
    if ps.len() == 0 {
        Seq::empty()
    } else {
        expand_pieces(m, excludes, ps.drop_last()) + expand_piece(m, excludes, ps.last())
    }
}

/// `source` with every insert expanded.
pub open spec fn applied(m: Map<Seq<char>, Seq<char>>, excludes: Seq<Seq<char>>, source: Seq<char>) -> Seq<char> {
    let ps = split_on(source, insert_marker());
    ps[0] + expand_pieces(m, excludes, ps.drop_first())
}

pub open spec fn texts(v: Seq<Vec<char>>) -> Seq<Seq<char>> {
    v.map_values(|t: Vec<char>| t@)
}

/// Whether `id` is one of `list`.
fn listed(list: &Vec<Vec<char>>, id: &Vec<char>) -> (r: bool)
    ensures
        r == texts(list@).contains(id@),
{
    let mut i: usize = 0;
    while i < list.len()
        invariant
            i <= list@.len(),
            forall|j: int| 0 <= j < i ==> list@[j]@ != id@,
        decreases list@.len() - i,
    {
        if same_text(&list[i], id) {
            assert(texts(list@)[i as int] == id@);
            return true;
        }
        i += 1;
    }
    assert forall|j: int| 0 <= j < texts(list@).len() implies texts(list@)[j] != id@ by {
        assert(texts(list@)[j] == list@[j]@);
    }
    false
}

impl ShaderSnippets {
    /// `source` with each `//INSERT: id` line replaced by the code named
    /// `id`, unless `id` is empty, starts with `DEBUG_` or `EDITOR_`, is one
    /// of `excludes`, or names nothing; the text after the id line is kept.
    pub fn apply_inserts(&self, source: &Vec<char>, excludes: &Vec<Vec<char>>) -> (r: Vec<char>)
        requires
            self.wf(),
        ensures
            r@ == applied(self@, texts(excludes@), source@),
    {
        let marker = marker_chars();
        let debug = vec!['D', 'E', 'B', 'U', 'G', '_'];
        assert(debug@ =~= debug_prefix());
        let editor = vec!['E', 'D', 'I', 'T', 'O', 'R', '_'];
        assert(editor@ =~= editor_prefix());
        let pieces = split_text(source, &marker);
        let ghost ps = split_on(source@, insert_marker());
        let ghost ex = texts(excludes@);
        assert(pieces@[0]@ == ps[0]);
        let mut out = copy_range(&pieces[0], 0, pieces[0].len());
        assert(out@ =~= ps[0]);
        let mut k: usize = 1;
        while k < pieces.len()
            invariant
                self.wf(),
                debug@ == debug_prefix(),
                editor@ == editor_prefix(),
                ex == texts(excludes@),
                1 <= k <= pieces@.len(),
                pieces@.len() == ps.len(),
                forall|q: int| 0 <= q < ps.len() ==> (#[trigger] pieces@[q])@ == ps[q],
                out@ == ps[0] + expand_pieces(self@, ex, ps.drop_first().take(k - 1)),
            decreases pieces@.len() - k,
        {
            assert(ps.drop_first().take(k as int).drop_last() =~= ps.drop_first().take(k - 1));
            assert(ps.drop_first().take(k as int).last() == ps[k as int]);
            let ghost before = out@;
            match split_piece(&pieces[k]) {
                None => {
                    assert(out@ =~= before + expand_piece(self@, ex, ps[k as int]));
                },
                Some((id, body)) => {
                    let take = id.len() > 0 && !has_prefix(&id, &debug) && !has_prefix(&id, &editor)
                        && !listed(excludes, &id);
                    if take {
                        match self.get(&id) {
                            Some(code) => {
                                append_chars(&mut out, code);
                            },
                            None => {},
                        }
                    }
                    append_chars(&mut out, &body);
                    assert(out@ =~= before + expand_piece(self@, ex, ps[k as int]));
                },
            }
            k += 1;
        }
        assert(ps.drop_first().take(k - 1) =~= ps.drop_first());
        out
    }
}


// ----------------------------------------------------------- injection

/// Position of the last `c` in `s[..i]`.
pub open spec fn last_index_before(s: Seq<char>, c: char, i: int) -> Option<int>
    decreases i,
{
    if i <= 0 || i > s.len() {
        None
    } else if s[i - 1] == c {
        Some(i - 1)
    } else {
        last_index_before(s, c, i - 1)
    }
}

/// `s` after injecting the code named by each of `names` in turn: a line
/// break and the code go in just before position `at - 1`, and `at` moves
/// on by the code's length. Names without code are passed over.
pub open spec fn inject_names(m: Map<Seq<char>, Seq<char>>, s: Seq<char>, at: int, names: Seq<Seq<char>>) -> Seq<char>
    decreases names.len(),
{
    if names.len() == 0 {
        s
    } else if m.contains_key(names[0]) {
        let code = m[names[0]];
        let s2 = s.subrange(0, at - 1) + seq!['\n'] + code + s.subrange(at - 1, s.len() as int);
        inject_names(m, s2, at + code.len(), names.drop_first())
    } else {
        inject_names(m, s, at, names.drop_first())
    }
}

/// `s` with the code of `names` injected before its last closing brace;
/// unchanged when it has none, or only one at its very start.
pub open spec fn injected(m: Map<Seq<char>, Seq<char>>, s: Seq<char>, names: Seq<Seq<char>>) -> Seq<char> {
    match last_index_before(s, '}', s.len() as int) {
        None => s,
        Some(i) => if i < 1 { s } else { inject_names(m, s, i, names) },
    }
}

impl ShaderSnippets {
    /// `shader` with the code named by each of `names`, in order, injected
    /// on a line of its own before its last closing brace. Positions count
    /// characters.
    pub fn inject_editor_code(&self, shader: &Vec<char>, names: &Vec<Vec<char>>) -> (r: Vec<char>)
        requires
            self.wf(),
        ensures
            r@ == injected(self@, shader@, texts(names@)),
    {
        let n = shader.len();
        let mut i: usize = n;
        while i > 0 && shader[i - 1] != '}'
            invariant
                n == shader@.len(),
                i <= n,
                last_index_before(shader@, '}', n as int) == last_index_before(shader@, '}', i as int),
            decreases i,
        {
            i -= 1;
        }
        if i <= 1 {
            return copy_range(shader, 0, n);
        }
        let mut at: usize = i - 1;
        let mut text = copy_range(shader, 0, n);
        assert(text@ =~= shader@);
        let ghost all = texts(names@);
        assert(last_index_before(shader@, '}', i as int) == Some((i - 1) as int));
        assert(all.subrange(0, all.len() as int) =~= all);
        let mut k: usize = 0;
        while k < names.len()
            invariant
                self.wf(),
                all == texts(names@),
                k <= names@.len(),
                1 <= at <= text@.len(),
                injected(self@, shader@, all) == inject_names(self@, text@, at as int, all.subrange(k as int, all.len() as int)),
            decreases names@.len() - k,
        {
            let ghost rest = all.subrange(k as int, all.len() as int);
            assert(rest[0] == names@[k as int]@);
            assert(rest.drop_first() =~= all.subrange(k + 1, all.len() as int));
            match self.get(&names[k]) {
                Some(code) => {
                    let len = text.len();
                    let mut next = copy_range(&text, 0, at - 1);
                    next.push('\n');
                    append_chars(&mut next, code);
                    let tail = copy_range(&text, at - 1, len);
                    append_chars(&mut next, &tail);
                    let ghost expect = text@.subrange(0, at - 1) + seq!['\n'] + code@ + text@.subrange(at - 1, len as int);
                    assert(next@ =~= expect);
                    let new_len = next.len();
                    assert(at + code@.len() < new_len);
                    at = at + code.len();
                    text = next;
                },
                None => {},
            }
            k += 1;
        }
        assert(all.subrange(k as int, all.len() as int) =~= Seq::<Seq<char>>::empty());
        text
    }
}


// ------------------------------------------------------------ features

/// The optional sections of the main shader, each an insert id.
#[allow(non_camel_case_types)]
#[derive(Clone, Copy, Debug, PartialEq, Eq, Structural)]
pub enum ShaderSection {
    WORLD_NOISE1,
    WORLD_NOISE2,
    TEXTURE_SAMPLERS_NEAREST,
    TEXTURE_SAMPLERS_LINEAR,
    TEXTURE_ID,
    AUTO_SHADER_UNIFORMS,
    AUTO_SHADER_TEXTURE_ID,
    UNI_SCALING_BASE,
    DUAL_SCALING_UNIFORMS,
    DUAL_SCALING_VERTEX,
    DUAL_SCALING_BASE,
    DUAL_SCALING_OVERLAY,
}

impl ShaderSection {
    /// The insert id of the section, its name spelled out.
    pub open spec fn id(self) -> Seq<char> {
        match self {
            ShaderSection::WORLD_NOISE1 => seq!['W', 'O', 'R', 'L', 'D', '_', 'N', 'O', 'I', 'S', 'E', '1'],
            ShaderSection::WORLD_NOISE2 => seq!['W', 'O', 'R', 'L', 'D', '_', 'N', 'O', 'I', 'S', 'E', '2'],
            ShaderSection::TEXTURE_SAMPLERS_NEAREST => seq!['T', 'E', 'X', 'T', 'U', 'R', 'E', '_', 'S', 'A', 'M', 'P', 'L', 'E', 'R', 'S', '_', 'N', 'E', 'A', 'R', 'E', 'S', 'T'],
            ShaderSection::TEXTURE_SAMPLERS_LINEAR => seq!['T', 'E', 'X', 'T', 'U', 'R', 'E', '_', 'S', 'A', 'M', 'P', 'L', 'E', 'R', 'S', '_', 'L', 'I', 'N', 'E', 'A', 'R'],
            ShaderSection::TEXTURE_ID => seq!['T', 'E', 'X', 'T', 'U', 'R', 'E', '_', 'I', 'D'],
            ShaderSection::AUTO_SHADER_UNIFORMS => seq!['A', 'U', 'T', 'O', '_', 'S', 'H', 'A', 'D', 'E', 'R', '_', 'U', 'N', 'I', 'F', 'O', 'R', 'M', 'S'],
            ShaderSection::AUTO_SHADER_TEXTURE_ID => seq!['A', 'U', 'T', 'O', '_', 'S', 'H', 'A', 'D', 'E', 'R', '_', 'T', 'E', 'X', 'T', 'U', 'R', 'E', '_', 'I', 'D'],
            ShaderSection::UNI_SCALING_BASE => seq!['U', 'N', 'I', '_', 'S', 'C', 'A', 'L', 'I', 'N', 'G', '_', 'B', 'A', 'S', 'E'],
            ShaderSection::DUAL_SCALING_UNIFORMS => seq!['D', 'U', 'A', 'L', '_', 'S', 'C', 'A', 'L', 'I', 'N', 'G', '_', 'U', 'N', 'I', 'F', 'O', 'R', 'M', 'S'],
            ShaderSection::DUAL_SCALING_VERTEX => seq!['D', 'U', 'A', 'L', '_', 'S', 'C', 'A', 'L', 'I', 'N', 'G', '_', 'V', 'E', 'R', 'T', 'E', 'X'],
            ShaderSection::DUAL_SCALING_BASE => seq!['D', 'U', 'A', 'L', '_', 'S', 'C', 'A', 'L', 'I', 'N', 'G', '_', 'B', 'A', 'S', 'E'],
            ShaderSection::DUAL_SCALING_OVERLAY => seq!['D', 'U', 'A', 'L', '_', 'S', 'C', 'A', 'L', 'I', 'N', 'G', '_', 'O', 'V', 'E', 'R', 'L', 'A', 'Y'],
        }
    }

    /// The insert id of the section.
    pub fn id_chars(self) -> (r: Vec<char>)
        ensures
            r@ == self.id(),
    {
        let r = match self {
            ShaderSection::WORLD_NOISE1 => vec!['W', 'O', 'R', 'L', 'D', '_', 'N', 'O', 'I', 'S', 'E', '1'],
            ShaderSection::WORLD_NOISE2 => vec!['W', 'O', 'R', 'L', 'D', '_', 'N', 'O', 'I', 'S', 'E', '2'],
            ShaderSection::TEXTURE_SAMPLERS_NEAREST => vec!['T', 'E', 'X', 'T', 'U', 'R', 'E', '_', 'S', 'A', 'M', 'P', 'L', 'E', 'R', 'S', '_', 'N', 'E', 'A', 'R', 'E', 'S', 'T'],
            ShaderSection::TEXTURE_SAMPLERS_LINEAR => vec!['T', 'E', 'X', 'T', 'U', 'R', 'E', '_', 'S', 'A', 'M', 'P', 'L', 'E', 'R', 'S', '_', 'L', 'I', 'N', 'E', 'A', 'R'],
            ShaderSection::TEXTURE_ID => vec!['T', 'E', 'X', 'T', 'U', 'R', 'E', '_', 'I', 'D'],
            ShaderSection::AUTO_SHADER_UNIFORMS => vec!['A', 'U', 'T', 'O', '_', 'S', 'H', 'A', 'D', 'E', 'R', '_', 'U', 'N', 'I', 'F', 'O', 'R', 'M', 'S'],
            ShaderSection::AUTO_SHADER_TEXTURE_ID => vec!['A', 'U', 'T', 'O', '_', 'S', 'H', 'A', 'D', 'E', 'R', '_', 'T', 'E', 'X', 'T', 'U', 'R', 'E', '_', 'I', 'D'],
            ShaderSection::UNI_SCALING_BASE => vec!['U', 'N', 'I', '_', 'S', 'C', 'A', 'L', 'I', 'N', 'G', '_', 'B', 'A', 'S', 'E'],
            ShaderSection::DUAL_SCALING_UNIFORMS => vec!['D', 'U', 'A', 'L', '_', 'S', 'C', 'A', 'L', 'I', 'N', 'G', '_', 'U', 'N', 'I', 'F', 'O', 'R', 'M', 'S'],
            ShaderSection::DUAL_SCALING_VERTEX => vec!['D', 'U', 'A', 'L', '_', 'S', 'C', 'A', 'L', 'I', 'N', 'G', '_', 'V', 'E', 'R', 'T', 'E', 'X'],
            ShaderSection::DUAL_SCALING_BASE => vec!['D', 'U', 'A', 'L', '_', 'S', 'C', 'A', 'L', 'I', 'N', 'G', '_', 'B', 'A', 'S', 'E'],
            ShaderSection::DUAL_SCALING_OVERLAY => vec!['D', 'U', 'A', 'L', '_', 'S', 'C', 'A', 'L', 'I', 'N', 'G', '_', 'O', 'V', 'E', 'R', 'L', 'A', 'Y'],
        };
        assert(r@ =~= self.id());
        r
    }
}

/// The features a terrain material turns on.
#[derive(Clone, Copy, Debug, PartialEq, Eq, Structural)]
pub struct MaterialFeatures {
    /// The world background is noise.
    pub world_noise: bool,
    /// Textures are sampled nearest rather than linear.
    pub nearest_filtering: bool,
    pub auto_shader: bool,
    pub dual_scaling: bool,
}

/// The sections left out for `f`: the world noise unless the background is
/// noise, the samplers of the filtering not in use, the texture id or the
/// auto shader, and the uniform or the dual scaling parts.
pub open spec fn excluded_sections(f: MaterialFeatures) -> Seq<ShaderSection> {
    (if f.world_noise {
        Seq::empty()
    } else {
        seq![ShaderSection::WORLD_NOISE1, ShaderSection::WORLD_NOISE2]
    }) + (if f.nearest_filtering {
        seq![ShaderSection::TEXTURE_SAMPLERS_LINEAR]
    } else {
        seq![ShaderSection::TEXTURE_SAMPLERS_NEAREST]
    }) + (if f.auto_shader {
        seq![ShaderSection::TEXTURE_ID]
    } else {
        seq![ShaderSection::AUTO_SHADER_UNIFORMS, ShaderSection::AUTO_SHADER_TEXTURE_ID]
    }) + (if f.dual_scaling {
        seq![ShaderSection::UNI_SCALING_BASE]
    } else {
        seq![
            ShaderSection::DUAL_SCALING_UNIFORMS,
            ShaderSection::DUAL_SCALING_VERTEX,
            ShaderSection::DUAL_SCALING_BASE,
            ShaderSection::DUAL_SCALING_OVERLAY,
        ]
    })
}

pub open spec fn section_ids(ss: Seq<ShaderSection>) -> Seq<Seq<char>> {
    ss.map_values(|s: ShaderSection| s.id())
}

/// The sections left out for `f`.
pub fn excluded_for(f: &MaterialFeatures) -> (r: Vec<ShaderSection>)
    ensures
        r@ == excluded_sections(*f),
{
    let mut r: Vec<ShaderSection> = Vec::new();
    if !f.world_noise {
        r.push(ShaderSection::WORLD_NOISE1);
        r.push(ShaderSection::WORLD_NOISE2);
    }
    if f.nearest_filtering {
        r.push(ShaderSection::TEXTURE_SAMPLERS_LINEAR);
    } else {
        r.push(ShaderSection::TEXTURE_SAMPLERS_NEAREST);
    }
    if f.auto_shader {
        r.push(ShaderSection::TEXTURE_ID);
    } else {
        r.push(ShaderSection::AUTO_SHADER_UNIFORMS);
        r.push(ShaderSection::AUTO_SHADER_TEXTURE_ID);
    }
    if f.dual_scaling {
        r.push(ShaderSection::UNI_SCALING_BASE);
    } else {
        r.push(ShaderSection::DUAL_SCALING_UNIFORMS);
        r.push(ShaderSection::DUAL_SCALING_VERTEX);
        r.push(ShaderSection::DUAL_SCALING_BASE);
        r.push(ShaderSection::DUAL_SCALING_OVERLAY);
    }
    assert(r@ =~= excluded_sections(*f));
    r
}

/// The id of the main shader.
pub open spec fn main_id() -> Seq<char> {
    seq!['m', 'a', 'i', 'n']
}

impl ShaderSnippets {
    /// The main shader with its inserts filled in, the sections that `f`
    /// turns off left out; none when no main shader has been read.
    pub fn generate_shader_code(&self, f: &MaterialFeatures) -> (r: Option<Vec<char>>)
        requires
            self.wf(),
        ensures
            r is Some <==> self@.contains_key(main_id()),
            r matches Some(code) ==> code@ == applied(self@, section_ids(excluded_sections(*f)), self@[main_id()]),
    {
        let sections = excluded_for(f);
        let mut excludes: Vec<Vec<char>> = Vec::new();
        let mut i: usize = 0;
        while i < sections.len()
            invariant
                i <= sections@.len(),
                texts(excludes@) == section_ids(sections@.take(i as int)),
            decreases sections@.len() - i,
        {
            let id = sections[i].id_chars();
            let ghost before = excludes@;
            excludes.push(id);
            assert(texts(excludes@) =~= texts(before).push(id@));
            assert(section_ids(sections@.take(i + 1)) =~= section_ids(sections@.take(i as int)).push(sections@[i as int].id()));
            i += 1;
        }
        assert(sections@.take(i as int) =~= sections@);
        let main = vec!['m', 'a', 'i', 'n'];
        assert(main@ =~= main_id());
        match self.get(&main) {
            None => None,
            Some(source) => Some(self.apply_inserts(source, &excludes)),
        }
    }
}

} // verus!
