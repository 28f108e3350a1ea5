//! Revision ranges and their encoding in file names: `stem.~OLD-NEW~.ext`.
use vstd::prelude::*;
use crate::text::{chars_of, string_of};
use crate::sql::{ascii_letter, ascii_digit};

verus! {

/// An optional pair of revisions: the one a change starts from and the one it ends at.
#[derive(Debug, PartialEq, Eq)]
pub struct RevisionRange {
    pub old_rev: Option<String>,
    pub new_rev: Option<String>,
}

impl Default for RevisionRange {
    fn default() -> (r: RevisionRange)
        ensures
            r.old_rev.is_none() && r.new_rev.is_none(),
    {
        RevisionRange { old_rev: None, new_rev: None }
    }
}

/// The revision range that language files carry in their names.
pub type LanguageRevision = RevisionRange;

/// The revisions of a range, as character sequences.
pub type RangeView = (Option<Seq<char>>, Option<Seq<char>>);

pub open spec fn opt_view(o: Option<String>) -> Option<Seq<char>> {
    match o {
        Some(s) => Some(s@),
        None => None,
    }
}

impl View for RevisionRange {
    type V = RangeView;

    open spec fn view(&self) -> RangeView {
        (opt_view(self.old_rev), opt_view(self.new_rev))
    }
}

/// `None` for an empty sequence, else the sequence.
pub open spec fn non_empty(s: Seq<char>) -> Option<Seq<char>> {
    if s.len() == 0 {
        None
    } else {
        Some(s)
    }
}

/// The text between the tildes: `OLD-NEW`, `NEW`, `OLD-` or nothing.
pub open spec fn range_text(r: RangeView) -> Seq<char> {
    match r {
        (Some(o), Some(n)) => o + seq!['-'] + n,
        (Some(o), None) => o + seq!['-'],
        (None, Some(n)) => n,
        (None, None) => seq![],
    }
}

/// The index of the last `c` in `s`, or -1.
pub open spec fn last_index(s: Seq<char>, c: char) -> int
    decreases s.len(),
{
    if s.len() == 0 {
        -1
    } else if s.last() == c {
        s.len() - 1
    } else {
        last_index(s.drop_last(), c)
    }
}

/// The index of the first `c` in `s`, or -1.
pub open spec fn first_index(s: Seq<char>, c: char) -> int
    decreases s.len(),
{
    if s.len() == 0 {
        -1
    } else if s[0] == c {
        0
    } else if first_index(s.drop_first(), c) < 0 {
        -1
    } else {
        first_index(s.drop_first(), c) + 1
    }
}

/// The range that the text between the tildes names: split on the first `-`,
/// where an empty side names no revision, and no `-` names the new revision alone.
pub open spec fn parse_range(s: Seq<char>) -> RangeView {
    let k = first_index(s, '-');
    if k < 0 {
        (None, non_empty(s))
    } else {
        (non_empty(s.take(k)), non_empty(s.skip(k + 1)))
    }
}

/// The directory part of a path, with its final `/`.
pub open spec fn dir_part(p: Seq<char>) -> Seq<char> {
    p.take(last_index(p, '/') + 1)
}

/// The last component of a path.
pub open spec fn name_part(p: Seq<char>) -> Seq<char> {
    p.skip(last_index(p, '/') + 1)
}

/// A file name without its extension.
pub open spec fn stem_of(name: Seq<char>) -> Seq<char> {
    let k = last_index(name, '.');
    if k > 0 {
        name.take(k)
    } else {
        name
    }
}

/// The extension of a file name: what follows its last `.`, unless that `.` starts the name.
pub open spec fn ext_of(name: Seq<char>) -> Option<Seq<char>> {
    let k = last_index(name, '.');
    if k > 0 {
        Some(name.skip(k + 1))
    } else {
        None
    }
}

pub open spec fn ext_suffix(e: Option<Seq<char>>) -> Seq<char> {
    match e {
        Some(x) => seq!['.'] + x,
        None => seq![],
    }
}

/// The pieces joined with `.`.
pub open spec fn join_dots(ss: Seq<Seq<char>>) -> Seq<char>
    decreases ss.len(),
{
    if ss.len() == 0 {
        seq![]
    } else if ss.len() == 1 {
        ss[0]
    } else {
        join_dots(ss.drop_last()) + seq!['.'] + ss.last()
    }
}

/// Whether a piece is a revision marker `~...~`.
pub open spec fn is_marker(s: Seq<char>) -> bool {
    s.len() > 0 && s[0] == '~' && s.last() == '~'
}

/// `s` without its leading and trailing `~`.
pub open spec fn trim_tildes(s: Seq<char>) -> Seq<char>
    decreases s.len(),
{
    if s.len() > 0 && s[0] == '~' {
        trim_tildes(s.drop_first())
    } else if s.len() > 0 && s.last() == '~' {
        trim_tildes(s.drop_last())
    } else {
        s
    }
}

/// `p` with the marker of `r` put between its stem and its extension.
pub open spec fn encoded_path(r: RangeView, p: Seq<char>) -> Seq<char> {
    let name = name_part(p);
    dir_part(p) + stem_of(name) + seq!['.', '~'] + range_text(r) + seq!['~'] + ext_suffix(
        ext_of(name),
    )
}

/// The range that the marker of `p` names, and `p` without it.  The marker
/// is what follows the last `.` of the stem, where it reads `~...~`; a path
/// without one names no range and is left as it is.
pub open spec fn extracted(p: Seq<char>) -> (RangeView, Seq<char>) {
    let name = name_part(p);
    let stem = stem_of(name);
    let k = last_index(stem, '.');
    if k >= 0 && is_marker(stem.skip(k + 1)) {
        (
            parse_range(trim_tildes(stem.skip(k + 1))),
            dir_part(p) + stem.take(k) + ext_suffix(ext_of(name)),
        )
    } else {
        ((None, None), p)
    }
}

fn last_index_of(cs: &Vec<char>, c: char) -> (r: Option<usize>)
    ensures
        match r {
            Some(k) => k < cs.len() && last_index(cs@, c) == k,
            None => last_index(cs@, c) == -1,
        },
{
    let mut i: usize = cs.len();
    assert(cs@.take(i as int) =~= cs@);
    while i > 0
        invariant
            i <= cs.len(),
            last_index(cs@, c) == last_index(cs@.take(i as int), c),
        decreases i,
    {
        assert(cs@.take(i as int).drop_last() =~= cs@.take(i - 1));
        if cs[i - 1] == c {
            return Some(i - 1);
        }
        i = i - 1;
    }
    None
}

pub(crate) fn first_index_of(cs: &Vec<char>, c: char) -> (r: Option<usize>)
    ensures
        match r {
            Some(k) => k < cs.len() && first_index(cs@, c) == k,
            None => first_index(cs@, c) == -1,
        },
{
    let mut i: usize = 0;
    assert(cs@.skip(0) =~= cs@);
    while i < cs.len()
        invariant
            i <= cs.len(),
            first_index(cs@, c) == if first_index(cs@.skip(i as int), c) < 0 {
                -1
            } else {
                first_index(cs@.skip(i as int), c) + i
            },
        decreases cs.len() - i,
    {
        assert(cs@.skip(i as int).drop_first() =~= cs@.skip(i + 1));
        if cs[i] == c {
            return Some(i);
        }
        i = i + 1;
    }
    None
}

/// The characters `cs[from..to]`.
pub(crate) fn slice_of(cs: &Vec<char>, from: usize, to: usize) -> (r: Vec<char>)
    requires
        from <= to <= cs.len(),
    ensures
        r@ == cs@.subrange(from as int, to as int),
{
    let mut out: Vec<char> = Vec::new();
    let mut i: usize = from;
    while i < to
        invariant
            from <= i <= to,
            to <= cs.len(),
            out@ == cs@.subrange(from as int, i as int),
        decreases to - i,
    {
        out.push(cs[i]);
        i = i + 1;
        assert(out@ =~= cs@.subrange(from as int, i as int));
    }
    out
}

fn non_empty_string(cs: &Vec<char>) -> (r: Option<String>)
    ensures
        opt_view(r) == non_empty(cs@),
{
    if cs.len() == 0 {
        None
    } else {
        Some(string_of(cs.as_slice()))
    }
}

fn append_chars(out: &mut Vec<char>, s: &Vec<char>)
    ensures
        final(out)@ == old(out)@ + s@,
{
    let mut i: usize = 0;
    while i < s.len()
        invariant
            i <= s.len(),
            out@ == old(out)@ + s@.take(i as int),
        decreases s.len() - i,
    {
        out.push(s[i]);
        i = i + 1;
        assert(out@ =~= old(out)@ + s@.take(i as int));
    }
    assert(s@.take(s@.len() as int) =~= s@);
}

fn trim_tilde_chars(s: &Vec<char>) -> (r: Vec<char>)
    ensures
        r@ == trim_tildes(s@),
{
    let mut from: usize = 0;
    let mut to: usize = s.len();
    assert(s@.subrange(0, s@.len() as int) =~= s@);
    while from < to && s[from] == '~'
        invariant
            from <= to <= s.len(),
            to == s.len(),
            trim_tildes(s@) == trim_tildes(s@.subrange(from as int, to as int)),
        decreases to - from,
    {
        assert(s@.subrange(from as int, to as int).drop_first() =~= s@.subrange(from + 1, to as int));
        from = from + 1;
    }
    while from < to && s[to - 1] == '~'
        invariant
            from <= to <= s.len(),
            trim_tildes(s@) == trim_tildes(s@.subrange(from as int, to as int)),
            from < to ==> s@[from as int] != '~',
        decreases to - from,
    {
        assert(s@.subrange(from as int, to as int).drop_last() =~= s@.subrange(from as int, to - 1));
        to = to - 1;
    }
    slice_of(s, from, to)
}

impl RevisionRange {
    pub fn new(old_rev: Option<&str>, new_rev: Option<&str>) -> (r: RevisionRange)
        ensures
            r.old_rev.is_some() == old_rev.is_some(),
            r.new_rev.is_some() == new_rev.is_some(),
            old_rev.is_some() ==> r.old_rev->0@ == old_rev->0@,
            new_rev.is_some() ==> r.new_rev->0@ == new_rev->0@,
    {
        RevisionRange {
            old_rev: match old_rev {
                Some(s) => Some(s.to_owned()),
                None => None,
            },
            new_rev: match new_rev {
                Some(s) => Some(s.to_owned()),
                None => None,
            },
        }
    }

    pub fn old_rev_as_ref(&self) -> (r: Option<&str>)
        ensures
            r.is_some() == self.old_rev.is_some(),
            r.is_some() ==> r->0@ == self.old_rev->0@,
    {
        match &self.old_rev {
            Some(s) => Some(s.as_str()),
            None => None,
        }
    }

    pub fn new_rev_as_ref(&self) -> (r: Option<&str>)
        ensures
            r.is_some() == self.new_rev.is_some(),
            r.is_some() ==> r->0@ == self.new_rev->0@,
    {
        match &self.new_rev {
            Some(s) => Some(s.as_str()),
            None => None,
        }
    }

    /// The text that stands between the tildes of a file name.
    pub fn to_string(&self) -> (s: String)
        ensures
            s@ == range_text(self@),
    {
        let mut s = String::new();
        proof {
            reveal_strlit("-");
        }
        match (&self.old_rev, &self.new_rev) {
            (Some(o), Some(n)) => {
                s.append(o.as_str());
                s.append("-");
                s.append(n.as_str());
            },
            (Some(o), None) => {
                s.append(o.as_str());
                s.append("-");
            },
            (None, Some(n)) => {
                s.append(n.as_str());
            },
            (None, None) => {},
        }
        s
    }

    fn from_chars(cs: &Vec<char>) -> (r: RevisionRange)
        ensures
            r@ == parse_range(cs@),
    {
        match first_index_of(cs, '-') {
            None => RevisionRange { old_rev: None, new_rev: non_empty_string(cs) },
            Some(k) => {
                let left = slice_of(cs, 0, k);
                let right = slice_of(cs, k + 1, cs.len());
                assert(left@ =~= cs@.take(k as int));
                assert(right@ =~= cs@.skip(k + 1));
                RevisionRange { old_rev: non_empty_string(&left), new_rev: non_empty_string(&right) }
            },
        }
    }

    /// The range that the text between the tildes names.
    pub fn from_string(string: &str) -> (r: RevisionRange)
        ensures
            r@ == parse_range(string@),
    {
        let cs = chars_of(string);
        RevisionRange::from_chars(&cs)
    }

    /// `path` with this range's marker between its stem and its extension.
    pub fn append_to_file_name(&self, path: &str) -> (r: String)
        ensures
            r@ == encoded_path(self@, path@),
    {
        let p = chars_of(path);
        let start = match last_index_of(&p, '/') {
            Some(k) => k + 1,
            None => 0,
        };
        let dir = slice_of(&p, 0, start);
        let name = slice_of(&p, start, p.len());
        assert(dir@ =~= dir_part(path@));
        assert(name@ =~= name_part(path@));
        let mut out = dir;
        match last_index_of(&name, '.') {
            Some(k) if k > 0 => {
                let stem = slice_of(&name, 0, k);
                let ext = slice_of(&name, k + 1, name.len());
                assert(stem@ =~= stem_of(name@));
                assert(ext@ =~= name@.skip(k + 1));
                append_chars(&mut out, &stem);
                out.push('.');
                out.push('~');
                let text = chars_of(self.to_string().as_str());
                append_chars(&mut out, &text);
                out.push('~');
                out.push('.');
                append_chars(&mut out, &ext);
            },
            _ => {
                append_chars(&mut out, &name);
                out.push('.');
                out.push('~');
                let text = chars_of(self.to_string().as_str());
                append_chars(&mut out, &text);
                out.push('~');
            },
        }
        assert(out@ =~= encoded_path(self@, path@));
        string_of(out.as_slice())
    }

    /// The range that the marker in `path` names, and `path` without it.
    pub fn extract_from_file_name(path: &str) -> (r: (RevisionRange, String))
        ensures
            (r.0@, r.1@) == extracted(path@),
    {
        let p = chars_of(path);
        let start = match last_index_of(&p, '/') {
            Some(k) => k + 1,
            None => 0,
        };
        let dir = slice_of(&p, 0, start);
        let name = slice_of(&p, start, p.len());
        assert(dir@ =~= dir_part(path@));
        assert(name@ =~= name_part(path@));
        let (stem, ext) = match last_index_of(&name, '.') {
            Some(k) if k > 0 => {
                let mut e: Vec<char> = Vec::new();
                e.push('.');
                let rest = slice_of(&name, k + 1, name.len());
                append_chars(&mut e, &rest);
                assert(rest@ =~= name@.skip(k + 1));
                (slice_of(&name, 0, k), e)
            },
            _ => (name.clone(), Vec::new()),
        };
        assert(stem@ =~= stem_of(name@));
        assert(ext@ =~= ext_suffix(ext_of(name@)));
        match last_index_of(&stem, '.') {
            Some(k) => {
                let marker = slice_of(&stem, k + 1, stem.len());
                assert(marker@ =~= stem@.skip(k + 1));
                if marker.len() > 0 && marker[0] == '~' && marker[marker.len() - 1] == '~' {
                    let range = RevisionRange::from_chars(&trim_tilde_chars(&marker));
                    let before = slice_of(&stem, 0, k);
                    assert(before@ =~= stem@.take(k as int));
                    let mut out = dir;
                    append_chars(&mut out, &before);
                    append_chars(&mut out, &ext);
                    return (range, string_of(out.as_slice()));
                }
            },
            None => {},
        }
        (RevisionRange { old_rev: None, new_rev: None }, path.to_owned())
    }
}

/// A revision name of the form `[A-Za-z0-9]+`.
pub open spec fn plain_revision(s: Seq<char>) -> bool {
    s.len() > 0 && forall|i: int| 0 <= i < s.len() ==> ascii_letter(#[trigger] s[i]) || ascii_digit(s[i])
}

proof fn lemma_last_index(s: Seq<char>, c: char)
    ensures
        -1 <= last_index(s, c) < s.len(),
        last_index(s, c) >= 0 ==> s[last_index(s, c)] == c,
        forall|j: int| last_index(s, c) < j < s.len() ==> s[j] != c,
    decreases s.len(),
{
    if s.len() > 0 && s.last() != c {
        lemma_last_index(s.drop_last(), c);
        assert forall|j: int| last_index(s, c) < j < s.len() implies s[j] != c by {
            if j < s.len() - 1 {
                assert(s[j] == s.drop_last()[j]);
            }
        }
    }
}

proof fn lemma_last_index_concat(a: Seq<char>, b: Seq<char>, c: char)
    requires
        forall|j: int| 0 <= j < b.len() ==> b[j] != c,
    ensures
        last_index(a + b, c) == last_index(a, c),
    decreases b.len(),
{
    if b.len() > 0 {
        assert((a + b).drop_last() =~= a + b.drop_last());
        lemma_last_index_concat(a, b.drop_last(), c);
    } else {
        assert(a + b =~= a);
    }
}

proof fn lemma_first_index_concat(a: Seq<char>, b: Seq<char>, c: char)
    requires
        forall|j: int| 0 <= j < a.len() ==> a[j] != c,
    ensures
        first_index(a + b, c) == if first_index(b, c) < 0 {
            -1
        } else {
            a.len() + first_index(b, c)
        },
    decreases a.len(),
{
    if a.len() > 0 {
        assert((a + b).drop_first() =~= a.drop_first() + b);
        lemma_first_index_concat(a.drop_first(), b, c);
    } else {
        assert(a + b =~= b);
    }
}

proof fn lemma_range_text(r: RangeView)
    requires
        r.0 is Some || r.1 is Some,
        r.0 is Some ==> plain_revision(r.0->0),
        r.1 is Some ==> plain_revision(r.1->0),
    ensures
        parse_range(range_text(r)) == r,
        range_text(r).len() > 0,
        forall|j: int| 0 <= j < range_text(r).len() ==> {
            let c = #[trigger] range_text(r)[j];
            c != '/' && c != '.' && c != '~'
        },
{
    let t = range_text(r);
    match r {
        (Some(o), Some(n)) => {
            lemma_first_index_concat(o, seq!['-'] + n, '-');
            assert(o + seq!['-'] + n =~= o + (seq!['-'] + n));
            assert(t.take(o.len() as int) =~= o);
            assert(t.skip(o.len() as int + 1) =~= n);
            assert forall|j: int| 0 <= j < t.len() implies {
                let c = #[trigger] t[j];
                c != '/' && c != '.' && c != '~'
            } by {
                if j < o.len() {
                    assert(t[j] == o[j]);
                } else if j > o.len() {
                    assert(t[j] == n[j - o.len() - 1]);
                }
            }
        },
        (Some(o), None) => {
            lemma_first_index_concat(o, seq!['-'], '-');
            assert(t.take(o.len() as int) =~= o);
            assert(t.skip(o.len() as int + 1) =~= seq![]);
            assert forall|j: int| 0 <= j < t.len() implies {
                let c = #[trigger] t[j];
                c != '/' && c != '.' && c != '~'
            } by {
                if j < o.len() {
                    assert(t[j] == o[j]);
                }
            }
        },
        (None, Some(n)) => {
            lemma_first_index_concat(n, seq![], '-');
            assert(n + seq![] =~= n);
        },
        (None, None) => {},
    }
}

proof fn lemma_split_dir(dir: Seq<char>, tail: Seq<char>)
    requires
        dir.len() == 0 || (dir.last() == '/'),
        forall|j: int| 0 <= j < tail.len() ==> tail[j] != '/',
    ensures
        dir_part(dir + tail) == dir,
        name_part(dir + tail) == tail,
{
    lemma_last_index_concat(dir, tail, '/');
    if dir.len() > 0 {
        assert(last_index(dir, '/') == dir.len() - 1);
    }
    assert((dir + tail).take(dir.len() as int) =~= dir);
    assert((dir + tail).skip(dir.len() as int) =~= tail);
}

proof fn lemma_split_ext(front: Seq<char>, e: Seq<char>)
    requires
        front.len() > 0,
        forall|j: int| 0 <= j < e.len() ==> e[j] != '.',
    ensures
        stem_of(front.push('.') + e) == front,
        ext_of(front.push('.') + e) == Some(e),
{
    lemma_last_index_concat(front.push('.'), e, '.');
    assert((front.push('.') + e).take(front.len() as int) =~= front);
    assert((front.push('.') + e).skip(front.len() as int + 1) =~= e);
}

proof fn lemma_trim_marker(t: Seq<char>)
    requires
        t.len() > 0,
        t[0] != '~',
        t.last() != '~',
    ensures
        trim_tildes(seq!['~'] + t + seq!['~']) == t,
{
    let m = seq!['~'] + t + seq!['~'];
    let u = t.push('~');
    assert(m.drop_first() =~= u);
    assert(trim_tildes(m) == trim_tildes(u));
    assert(u.drop_last() =~= t);
    assert(u[0] == t[0]);
    assert(trim_tildes(u) == trim_tildes(t));
    assert(trim_tildes(t) == t);
}

proof fn lemma_name_has_no_slash(p: Seq<char>)
    ensures
        forall|j: int| 0 <= j < name_part(p).len() ==> name_part(p)[j] != '/',
{
    lemma_last_index(p, '/');
    let li = last_index(p, '/');
    assert forall|j: int| 0 <= j < name_part(p).len() implies name_part(p)[j] != '/' by {
        assert(name_part(p)[j] == p[li + 1 + j]);
    }
}

proof fn lemma_marker_chars(t: Seq<char>)
    requires
        forall|j: int| 0 <= j < t.len() ==> {
            let c = #[trigger] t[j];
            c != '/' && c != '.' && c != '~'
        },
    ensures
        forall|j: int| 0 <= j < (seq!['~'] + t + seq!['~']).len() ==> {
            let c = #[trigger] (seq!['~'] + t + seq!['~'])[j];
            c != '/' && c != '.'
        },
{
    let m = seq!['~'] + t + seq!['~'];
    assert forall|j: int| 0 <= j < m.len() implies {
        let c = #[trigger] m[j];
        c != '/' && c != '.'
    } by {
        if j > 0 && j < m.len() - 1 {
            assert(m[j] == t[j - 1]);
        }
    }
}

proof fn lemma_tail_has_no_slash(stem: Seq<char>, m: Seq<char>, e: Seq<char>, name: Seq<char>)
    requires
        stem.len() <= name.len(),
        forall|j: int| 0 <= j < stem.len() ==> stem[j] == name[j],
        forall|j: int| 0 <= j < name.len() ==> name[j] != '/',
        forall|j: int| 0 <= j < m.len() ==> m[j] != '/',
        forall|j: int| 0 <= j < e.len() ==> e[j] != '/',
    ensures
        forall|j: int| 0 <= j < (stem.push('.') + m).push('.').add(e).len() ==> (stem.push('.') + m).push('.').add(e)[j] != '/',
{
    let tail = (stem.push('.') + m).push('.') + e;
    assert forall|j: int| 0 <= j < tail.len() implies tail[j] != '/' by {
        if j < stem.len() {
            assert(tail[j] == name[j]);
        } else if stem.len() < j < stem.len() + 1 + m.len() {
            assert(tail[j] == m[j - stem.len() - 1]);
        } else if j > stem.len() + 1 + m.len() {
            assert(tail[j] == e[j - stem.len() - 2 - m.len()]);
        }
    }
}

/// Putting a range whose revisions are made of ASCII letters and digits into
/// a file name with an extension and extracting it again gives back the
/// range and the path.  (Without an extension the marker itself would read
/// as the extension.)
#[verifier::rlimit(40)]
pub proof fn lemma_revision_round_trip(r: RangeView, p: Seq<char>)
    requires
        r.0 is Some || r.1 is Some,
        r.0 is Some ==> plain_revision(r.0->0),
        r.1 is Some ==> plain_revision(r.1->0),
        ext_of(name_part(p)) is Some,
    ensures
        extracted(encoded_path(r, p)) == (r, p),
{
    let dir = dir_part(p);
    let name = name_part(p);
    let li = last_index(p, '/');
    lemma_last_index(p, '/');
    let k = last_index(name, '.');
    lemma_last_index(name, '.');
    let stem = stem_of(name);
    let e = name.skip(k + 1);
    let t = range_text(r);
    lemma_range_text(r);
    let m = seq!['~'] + t + seq!['~'];
    let front = stem.push('.') + m;
    let tail = front.push('.') + e;
    assert(encoded_path(r, p) =~= dir + tail);
    lemma_name_has_no_slash(p);
    lemma_marker_chars(t);
    assert forall|j: int| 0 <= j < e.len() implies e[j] != '.' && e[j] != '/' by {
        assert(e[j] == name[k + 1 + j]);
    }
    lemma_tail_has_no_slash(stem, m, e, name);
    assert(dir.len() == li + 1);
    if li >= 0 {
        assert(dir.last() == p[li]);
    }
    lemma_split_dir(dir, tail);
    lemma_split_ext(front, e);
    lemma_last_index_concat(stem.push('.'), m, '.');
    assert(last_index(stem.push('.'), '.') == stem.len());
    assert(front.skip(stem.len() as int + 1) =~= m);
    assert(front.take(stem.len() as int) =~= stem);
    assert(t[0] == range_text(r)[0]);
    assert(t.last() == range_text(r)[t.len() - 1]);
    lemma_trim_marker(t);
    assert(name =~= stem.push('.') + e);
    assert(p =~= dir + name);
}

} // verus!
