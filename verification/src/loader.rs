//! Level-text handling: the grid width and height of one level cell, and
//! the splitting of a level file into its floor maps.  A level file holds
//! one character grid per floor, the floors separated by lines reading
//! `sep`.

use vstd::prelude::*;

use vstd::string::{StrSliceExecFns, StringExecFns};

verus! {

/// The world width of one grid cell.
pub const GW: i64 = 10_000;

/// The world height of one floor.
pub const GH: i64 = 15_000;

/// ASCII whitespace, as trimmed off a separator line.
pub open spec fn is_ws(c: char) -> bool {
    c == ' ' || c == '\t' || c == '\r' || c == '\n' || c == '\u{b}' || c == '\u{c}'
}

/// Leading whitespace removed.
pub open spec fn trim_front(s: Seq<char>) -> Seq<char>
    decreases s.len(),
{
    if s.len() > 0 && is_ws(s[0]) {
        trim_front(s.skip(1))
    } else {
        s
    }
}

/// Trailing whitespace removed.
pub open spec fn trim_back(s: Seq<char>) -> Seq<char>
    decreases s.len(),
{
    if s.len() > 0 && is_ws(s.last()) {
        trim_back(s.drop_last())
    } else {
        s
    }
}

/// Whitespace removed from both ends.
pub open spec fn trimmed(s: Seq<char>) -> Seq<char> {
    trim_back(trim_front(s))
}

/// A floor-separator line: `sep` once whitespace is trimmed away.
pub open spec fn is_sep_line(l: Seq<char>) -> bool {
    trimmed(l) == seq!['s', 'e', 'p']
}

/// A carriage return at the end of a line (from a CRLF ending) is dropped.
pub open spec fn strip_cr(l: Seq<char>) -> Seq<char> {
    if l.len() > 0 && l.last() == '\r' {
        l.drop_last()
    } else {
        l
    }
}

/// The segments of a level file, scanned left to right: `line` is the text
/// since the last newline, `cur` the segment being accumulated.  A complete
/// line either closes the current segment (a separator line) or joins it
/// with a newline re-attached; the text after the last newline counts as a
/// final line unless it is empty, and the last segment is always emitted.
pub open spec fn s_segments(s: Seq<char>, line: Seq<char>, cur: Seq<char>) -> Seq<Seq<char>>
    decreases s.len(),
{
    if s.len() == 0 {
        if line.len() == 0 {
            seq![cur]
        } else if is_sep_line(strip_cr(line)) {
            seq![cur, Seq::<char>::empty()]
        } else {
            seq![cur + strip_cr(line) + seq!['\n']]
        }
    } else if s[0] == '\n' {
        let l = strip_cr(line);
        if is_sep_line(l) {
            seq![cur] + s_segments(s.skip(1), Seq::empty(), Seq::empty())
        } else {
            s_segments(s.skip(1), Seq::empty(), cur + l + seq!['\n'])
        }
    } else {
        s_segments(s.skip(1), line.push(s[0]), cur)
    }
}

/// What `separate_map` returns: the level text split at `sep` lines.
pub open spec fn s_separate_map(s: Seq<char>) -> Seq<Seq<char>> {
    s_segments(s, Seq::empty(), Seq::empty())
}

/// Scanning past `k` leading whitespace characters is exactly `trim_front`.
proof fn lemma_trim_front_scan(l: Seq<char>, k: int)
    requires
        0 <= k <= l.len(),
        forall|j: int| 0 <= j < k ==> is_ws(#[trigger] l[j]),
        k == l.len() || !is_ws(l[k]),
    ensures
        trim_front(l) == l.skip(k),
    decreases k,
{
    if k == 0 {
        assert(l.skip(0) =~= l);
    } else {
        assert(is_ws(l[0]));
        lemma_trim_front_scan(l.skip(1), k - 1);
        assert(l.skip(1).skip(k - 1) =~= l.skip(k));
    }
}

/// Scanning back past trailing whitespace down to `m` is exactly
/// `trim_back`.
proof fn lemma_trim_back_scan(l: Seq<char>, m: int)
    requires
        0 <= m <= l.len(),
        forall|j: int| m <= j < l.len() ==> is_ws(#[trigger] l[j]),
        m == 0 || !is_ws(l[m - 1]),
    ensures
        trim_back(l) == l.take(m),
    decreases l.len(),
{
    if m < l.len() {
        assert(is_ws(l.last()));
        lemma_trim_back_scan(l.drop_last(), m);
        assert(l.drop_last().take(m) =~= l.take(m));
    } else {
        if l.len() > 0 {
            assert(!is_ws(l[m - 1]));
            assert(l[m - 1] == l.last());
        }
        assert(l.take(m) =~= l);
    }
}

/// Executable whitespace test.
fn ws(c: char) -> (r: bool)
    ensures
        r == is_ws(c),
{
    c == ' ' || c == '\t' || c == '\r' || c == '\n' || c == '\u{b}' || c == '\u{c}'
}

/// Whether the characters `[from, to)` of `map` trim down to `sep`.
fn line_is_sep(map: &str, from: usize, to: usize) -> (r: bool)
    requires
        from <= to <= map@.len(),
    ensures
        r == is_sep_line(map@.subrange(from as int, to as int)),
{
    let ghost l = map@.subrange(from as int, to as int);
    let mut ts: usize = from;
    while ts < to && ws(map.get_char(ts))
        invariant
            from <= ts <= to <= map@.len(),
            l == map@.subrange(from as int, to as int),
            forall|j: int| from <= j < ts ==> is_ws(#[trigger] map@[j]),
        decreases to - ts,
    {
        ts += 1;
    }
    let mut te: usize = to;
    while te > ts && ws(map.get_char(te - 1))
        invariant
            ts <= te <= to <= map@.len(),
            forall|j: int| te <= j < to ==> is_ws(#[trigger] map@[j]),
        decreases te,
    {
        te -= 1;
    }
    proof {
        assert(forall|j: int| 0 <= j < l.len() ==> l[j] == map@[from + j]);
        lemma_trim_front_scan(l, ts - from);
        let f = l.skip(ts - from);
        assert(forall|j: int| 0 <= j < f.len() ==> f[j] == map@[ts + j]);
        lemma_trim_back_scan(f, te - ts);
        assert(trimmed(l) =~= map@.subrange(ts as int, te as int));
    }
    if te - ts == 3 {
        let c0 = map.get_char(ts);
        let c1 = map.get_char(ts + 1);
        let c2 = map.get_char(ts + 2);
        let r = c0 == 's' && c1 == 'e' && c2 == 'p';
        proof {
            if r {
                assert(trimmed(l) =~= seq!['s', 'e', 'p']);
            } else {
                assert(trimmed(l) != seq!['s', 'e', 'p']);
            }
        }
        r
    } else {
        proof {
            assert(trimmed(l).len() != 3);
        }
        false
    }
}

/// Split a level file into the floor maps between `sep` lines.  Each
/// returned segment holds its lines joined back with plain newlines; the
/// text after the last separator is the final segment, even when empty.
pub fn separate_map(map: &str) -> (res: Vec<String>)
    ensures
        res.deep_view() == s_separate_map(map@),
{
    let n = map.unicode_len();
    let mut res: Vec<String> = Vec::new();
    let mut cur = String::new();
    let mut line_start: usize = 0;
    let mut i: usize = 0;
    proof {
        assert(map@.skip(0) =~= map@);
        assert(map@.subrange(0int, 0int) =~= Seq::<char>::empty());
        assert(res.deep_view() =~= Seq::<Seq<char>>::empty());
        assert(Seq::<Seq<char>>::empty() + s_segments(map@, Seq::empty(), Seq::empty())
            =~= s_segments(map@, Seq::empty(), Seq::empty()));
        assert(s_separate_map(map@) == s_segments(map@, Seq::empty(), Seq::empty()));
    }
    while i < n
        invariant
            line_start <= i <= n,
            n == map@.len(),
            s_separate_map(map@) == res.deep_view() + s_segments(
                map@.skip(i as int),
                map@.subrange(line_start as int, i as int),
                cur@,
            ),
        decreases n - i,
    {
        let ghost line = map@.subrange(line_start as int, i as int);
        let ghost dv0 = res.deep_view();
        let ghost cur0 = cur@;
        proof {
            reveal_strlit("\n");
            assert(map@.skip(i as int).len() > 0);
            assert(map@.skip(i as int)[0] == map@[i as int]);
            assert(map@.skip(i as int).skip(1) =~= map@.skip(i + 1));
        }
        let c = map.get_char(i);
        if c == '\n' {
            let l_end: usize = if i > line_start && map.get_char(i - 1) == '\r' {
                i - 1
            } else {
                i
            };
            proof {
                assert(strip_cr(line) =~= map@.subrange(line_start as int, l_end as int));
            }
            if line_is_sep(map, line_start, l_end) {
                res.push(cur);
                cur = String::new();
                proof {
                    assert(res.deep_view() =~= dv0.push(cur0));
                    assert(dv0 + (seq![cur0] + s_segments(
                        map@.skip(i + 1),
                        Seq::empty(),
                        Seq::empty(),
                    )) =~= dv0.push(cur0) + s_segments(map@.skip(i + 1), Seq::empty(), Seq::empty()));
                }
            } else {
                let piece = map.substring_char(line_start, l_end);
                cur.append(piece);
                cur.append("\n");
                proof {
                    assert("\n"@ =~= seq!['\n']);
                    assert(cur@ =~= cur0 + strip_cr(line) + seq!['\n']);
                }
            }
            line_start = i + 1;
            proof {
                assert(map@.subrange(line_start as int, i + 1) =~= Seq::<char>::empty());
            }
        } else {
            proof {
                assert(map@.subrange(line_start as int, i + 1) =~= line.push(map@[i as int]));
            }
        }
        i += 1;
    }
    proof {
        assert(map@.skip(n as int) =~= Seq::<char>::empty());
    }
    let ghost line = map@.subrange(line_start as int, n as int);
    let ghost dv0 = res.deep_view();
    let ghost cur0 = cur@;
    if line_start == n {
        proof {
            assert(line =~= Seq::<char>::empty());
        }
        res.push(cur);
        proof {
            assert(res.deep_view() =~= dv0.push(cur0));
            assert(dv0 + seq![cur0] =~= dv0.push(cur0));
        }
    } else {
        let l_end: usize = if map.get_char(n - 1) == '\r' {
            n - 1
        } else {
            n
        };
        proof {
            assert(line.len() > 0);
            assert(strip_cr(line) =~= map@.subrange(line_start as int, l_end as int));
        }
        if line_is_sep(map, line_start, l_end) {
            res.push(cur);
            res.push(String::new());
            proof {
                assert(res.deep_view() =~= dv0.push(cur0).push(Seq::<char>::empty()));
                assert(dv0 + seq![cur0, Seq::<char>::empty()] =~= dv0.push(cur0).push(
                    Seq::<char>::empty(),
                ));
            }
        } else {
            let piece = map.substring_char(line_start, l_end);
            cur.append(piece);
            cur.append("\n");
            proof {
                reveal_strlit("\n");
                assert("\n"@ =~= seq!['\n']);
                assert(cur@ =~= cur0 + strip_cr(line) + seq!['\n']);
            }
            let ghost curf = cur@;
            res.push(cur);
            proof {
                assert(res.deep_view() =~= dv0.push(curf));
                assert(dv0 + seq![curf] =~= dv0.push(curf));
            }
        }
    }
    proof {
        assert(res.deep_view() =~= s_separate_map(map@));
    }
    res
}

/// The pieces of a text split at newlines: always at least one piece, the
/// pieces between consecutive newlines, in order.
pub open spec fn s_split_nl(s: Seq<char>) -> Seq<Seq<char>>
    decreases s.len(),
{
    if s.len() == 0 {
        seq![Seq::<char>::empty()]
    } else if s[0] == '\n' {
        seq![Seq::<char>::empty()] + s_split_nl(s.skip(1))
    } else {
        let r = s_split_nl(s.skip(1));
        seq![seq![s[0]] + r[0]] + r.skip(1)
    }
}

/// The floor-separator pattern a level file splits on.
pub open spec fn sep_pat() -> Seq<char> {
    seq!['s', 'e', 'p', '\n']
}

/// The pieces of a text split at (non-overlapping, leftmost) occurrences of
/// the floor-separator pattern.
pub open spec fn s_split_sep(s: Seq<char>) -> Seq<Seq<char>>
    decreases s.len(),
{
    if s.len() >= 4 && s.subrange(0, 4) == sep_pat() {
        seq![Seq::<char>::empty()] + s_split_sep(s.skip(4))
    } else if s.len() == 0 {
        seq![Seq::<char>::empty()]
    } else {
        let r = s_split_sep(s.skip(1));
        seq![seq![s[0]] + r[0]] + r.skip(1)
    }
}

/// What `map_as_vec_of_floors` returns: the floors of a level file, each a
/// list of rows.
pub open spec fn s_floors(s: Seq<char>) -> Seq<Seq<Seq<char>>> {
    s_split_sep(s).map_values(|p: Seq<char>| s_split_nl(p))
}

/// A partial first piece joined onto a split of the remaining text.
pub open spec fn prepend_first(p: Seq<char>, r: Seq<Seq<char>>) -> Seq<Seq<char>>
    recommends
        r.len() >= 1,
{
    seq![p + r[0]] + r.skip(1)
}

/// A split has at least one piece.
proof fn lemma_split_nl_len(s: Seq<char>)
    ensures
        s_split_nl(s).len() >= 1,
    decreases s.len(),
{
    if s.len() > 0 {
        lemma_split_nl_len(s.skip(1));
    }
}

/// A separator split has at least one piece.
proof fn lemma_split_sep_len(s: Seq<char>)
    ensures
        s_split_sep(s).len() >= 1,
    decreases s.len(),
{
    if s.len() >= 4 && s.subrange(0, 4) == sep_pat() {
        lemma_split_sep_len(s.skip(4));
    } else if s.len() > 0 {
        lemma_split_sep_len(s.skip(1));
    }
}

/// Split a piece of text at newlines into row slices.
fn split_rows<'a>(piece: &'a str) -> (res: Vec<&'a str>)
    ensures
        res.deep_view() == s_split_nl(piece@),
{
    let n = piece.unicode_len();
    let mut res: Vec<&'a str> = Vec::new();
    let mut start: usize = 0;
    let mut i: usize = 0;
    proof {
        assert(piece@.skip(0) =~= piece@);
        assert(piece@.subrange(0int, 0int) =~= Seq::<char>::empty());
        lemma_split_nl_len(piece@);
        assert(res.deep_view() =~= Seq::<Seq<char>>::empty());
        assert(Seq::<Seq<char>>::empty() + prepend_first(Seq::empty(), s_split_nl(piece@))
            =~= prepend_first(Seq::empty(), s_split_nl(piece@)));
        assert(Seq::<char>::empty() + s_split_nl(piece@)[0] =~= s_split_nl(piece@)[0]);
        assert(prepend_first(Seq::empty(), s_split_nl(piece@)) =~= s_split_nl(piece@));
    }
    while i < n
        invariant
            start <= i <= n,
            n == piece@.len(),
            s_split_nl(piece@).len() >= 1,
            s_split_nl(piece@.skip(i as int)).len() >= 1,
            s_split_nl(piece@) == res.deep_view() + prepend_first(
                piece@.subrange(start as int, i as int),
                s_split_nl(piece@.skip(i as int)),
            ),
        decreases n - i,
    {
        let ghost p = piece@.subrange(start as int, i as int);
        let ghost dv0 = res.deep_view();
        proof {
            assert(piece@.skip(i as int).len() > 0);
            assert(piece@.skip(i as int)[0] == piece@[i as int]);
            assert(piece@.skip(i as int).skip(1) =~= piece@.skip(i + 1));
            lemma_split_nl_len(piece@.skip(i + 1));
        }
        let c = piece.get_char(i);
        if c == '\n' {
            let row = piece.substring_char(start, i);
            res.push(row);
            start = i + 1;
            proof {
                let r = s_split_nl(piece@.skip(i + 1));
                assert(p + Seq::<char>::empty() =~= p);
                assert(res.deep_view() =~= dv0.push(p));
                assert(dv0 + (seq![p] + r) =~= dv0.push(p) + r);
                assert(piece@.subrange(start as int, i + 1) =~= Seq::<char>::empty());
                assert(Seq::<char>::empty() + r[0] =~= r[0]);
                assert(prepend_first(Seq::<char>::empty(), r) =~= r);
                assert(dv0.push(p) + r =~= dv0.push(p) + prepend_first(
                    piece@.subrange(start as int, i + 1),
                    r,
                ));
            }
        } else {
            proof {
                let r = s_split_nl(piece@.skip(i + 1));
                assert(piece@.subrange(start as int, i + 1) =~= p.push(piece@[i as int]));
                assert(p + (seq![piece@[i as int]] + r[0]) =~= p.push(piece@[i as int]) + r[0]);
                assert((seq![seq![piece@[i as int]] + r[0]] + r.skip(1)).skip(1) =~= r.skip(1));
                assert(prepend_first(p, s_split_nl(piece@.skip(i as int))) =~= prepend_first(
                    p.push(piece@[i as int]),
                    r,
                ));
            }
        }
        i += 1;
    }
    proof {
        assert(piece@.skip(n as int) =~= Seq::<char>::empty());
    }
    let ghost p = piece@.subrange(start as int, n as int);
    let ghost dv0 = res.deep_view();
    let row = piece.substring_char(start, n);
    res.push(row);
    proof {
        assert(p + Seq::<char>::empty() =~= p);
        assert(res.deep_view() =~= dv0.push(p));
        assert(dv0 + prepend_first(p, s_split_nl(Seq::<char>::empty())) =~= dv0.push(p));
        assert(res.deep_view() =~= s_split_nl(piece@));
    }
    res
}

/// Split a level file into floors at `sep` lines, each floor into its rows:
/// the level text as a grid per floor.
pub fn map_as_vec_of_floors<'a>(map: &'a str) -> (res: Vec<Vec<&'a str>>)
    ensures
        res.deep_view() == s_floors(map@),
{
    let n = map.unicode_len();
    let mut res: Vec<Vec<&'a str>> = Vec::new();
    let ghost mut gpieces: Seq<Seq<char>> = Seq::empty();
    let mut piece_start: usize = 0;
    let mut i: usize = 0;
    proof {
        assert(map@.skip(0) =~= map@);
        assert(map@.subrange(0int, 0int) =~= Seq::<char>::empty());
        lemma_split_sep_len(map@);
        assert(Seq::<char>::empty() + s_split_sep(map@)[0] =~= s_split_sep(map@)[0]);
        assert(prepend_first(Seq::empty(), s_split_sep(map@)) =~= s_split_sep(map@));
        assert(gpieces + prepend_first(Seq::empty(), s_split_sep(map@)) =~= s_split_sep(map@));
    }
    while i < n
        invariant
            piece_start <= i <= n,
            n == map@.len(),
            s_split_sep(map@.skip(i as int)).len() >= 1,
            s_split_sep(map@) == gpieces + prepend_first(
                map@.subrange(piece_start as int, i as int),
                s_split_sep(map@.skip(i as int)),
            ),
            res.deep_view().len() == gpieces.len(),
            forall|k: int|
                0 <= k < gpieces.len() ==> res.deep_view()[k] == s_split_nl(#[trigger] gpieces[k]),
        decreases n - i,
    {
        let ghost p = map@.subrange(piece_start as int, i as int);
        let ghost dv0 = res.deep_view();
        let ghost suffix = map@.skip(i as int);
        proof {
            assert(suffix.len() > 0);
            assert(forall|j: int| 0 <= j < suffix.len() ==> suffix[j] == map@[i + j]);
        }
        let is_sep_here = n >= 4 && i <= n - 4 && map.get_char(i) == 's' && map.get_char(i + 1)
            == 'e' && map.get_char(i + 2) == 'p' && map.get_char(i + 3) == '\n';
        if is_sep_here {
            proof {
                assert(suffix.subrange(0, 4) =~= sep_pat());
                assert(suffix.skip(4) =~= map@.skip(i + 4));
                lemma_split_sep_len(map@.skip(i + 4));
            }
            let piece = map.substring_char(piece_start, i);
            let rows = split_rows(piece);
            res.push(rows);
            proof {
                let r = s_split_sep(map@.skip(i + 4));
                assert(p + Seq::<char>::empty() =~= p);
                assert(gpieces + (seq![p] + r) =~= gpieces.push(p) + r);
                assert(res.deep_view() =~= dv0.push(s_split_nl(p)));
                gpieces = gpieces.push(p);
                assert(map@.subrange(i + 4, i + 4) =~= Seq::<char>::empty());
                assert(Seq::<char>::empty() + r[0] =~= r[0]);
                assert(prepend_first(Seq::<char>::empty(), r) =~= r);
            }
            piece_start = i + 4;
            i += 4;
        } else {
            proof {
                if suffix.len() >= 4 && suffix.subrange(0, 4) == sep_pat() {
                    assert(suffix.subrange(0, 4)[0] == map@[i as int]);
                    assert(suffix.subrange(0, 4)[1] == map@[i + 1]);
                    assert(suffix.subrange(0, 4)[2] == map@[i + 2]);
                    assert(suffix.subrange(0, 4)[3] == map@[i + 3]);
                    assert(false);
                }
                assert(suffix.skip(1) =~= map@.skip(i + 1));
                lemma_split_sep_len(map@.skip(i + 1));
                let r = s_split_sep(map@.skip(i + 1));
                assert(map@.subrange(piece_start as int, i + 1) =~= p.push(map@[i as int]));
                assert(p + (seq![map@[i as int]] + r[0]) =~= p.push(map@[i as int]) + r[0]);
                assert((seq![seq![map@[i as int]] + r[0]] + r.skip(1)).skip(1) =~= r.skip(1));
                assert(prepend_first(p, s_split_sep(suffix)) =~= prepend_first(
                    p.push(map@[i as int]),
                    r,
                ));
            }
            i += 1;
        }
    }
    proof {
        assert(map@.skip(n as int) =~= Seq::<char>::empty());
    }
    let ghost p = map@.subrange(piece_start as int, n as int);
    let ghost dv0 = res.deep_view();
    let piece = map.substring_char(piece_start, n);
    let rows = split_rows(piece);
    res.push(rows);
    proof {
        assert(p + Seq::<char>::empty() =~= p);
        assert(gpieces + prepend_first(p, s_split_sep(Seq::<char>::empty())) =~= gpieces.push(p));
        assert(res.deep_view() =~= dv0.push(s_split_nl(p)));
        gpieces = gpieces.push(p);
        assert(s_split_sep(map@) == gpieces);
        assert(res.deep_view() =~= s_floors(map@));
    }
    res
}

} // verus!
