//! The .restext format: one `name=value` per line.
use vstd::prelude::*;
use crate::resource::{Resource, Row, rows};
use crate::text::{chars_of, string_of, is_white_space, white_space};

verus! {

/// Whether `c` is a word character of regular expressions (`\w`):
/// Alphabetic, Join_Control, or of category Decimal_Number, Mark or
/// Connector_Punctuation.
pub uninterp spec fn word_character(c: char) -> bool;

/// Relies on `regex_syntax::try_is_word_character`: whether `c` is in `\w`,
/// the class that the key pattern `^\s*(\w+)=(.*)$` uses.
#[verifier::external_body]
fn is_word_character(c: char) -> (r: bool)
    ensures
        r == word_character(c),
{
    matches!(regex_syntax::try_is_word_character(c), Ok(true))
}

/// A character of a key: a word character.  ASCII letters, digits and `_`
/// are word characters, while white space and `=` are not; they are named
/// here so that the line grammar reads off this definition alone.
pub open spec fn word_char(c: char) -> bool {
    ||| ('a' <= c && c <= 'z') || ('A' <= c && c <= 'Z') || ('0' <= c && c <= '9') || c == '_'
    ||| (word_character(c) && !white_space(c) && c != '=')
}

fn is_word_char(c: char) -> (r: bool)
    ensures
        r == word_char(c),
{
    ('a' <= c && c <= 'z') || ('A' <= c && c <= 'Z') || ('0' <= c && c <= '9') || c == '_' || (
    is_word_character(c) && !is_white_space(c) && c != '=')
}

/// The first index from `i` on that is not white space.
pub open spec fn skip_space(l: Seq<char>, i: int) -> int
    decreases l.len() - i,
{
    if 0 <= i < l.len() && white_space(l[i]) {
        skip_space(l, i + 1)
    } else {
        i
    }
}

/// The first index from `i` on that is no key character.
pub open spec fn skip_word(l: Seq<char>, i: int) -> int
    decreases l.len() - i,
{
    if 0 <= i < l.len() && word_char(l[i]) {
        skip_word(l, i + 1)
    } else {
        i
    }
}

/// The resource that a line names: optional white space, a key of one or
/// more key characters, `=`, and the rest of the line as the value.
pub open spec fn parse_line(l: Seq<char>) -> Option<Row> {
    let i = skip_space(l, 0);
    let j = skip_word(l, i);
    if i < j && j < l.len() && l[j] == '=' {
        Some((l.subrange(i, j), l.skip(j + 1)))
    } else {
        None
    }
}

/// A line without the carriage return that ended it.
pub open spec fn strip_cr(l: Seq<char>) -> Seq<char> {
    if l.len() > 0 && l.last() == '\r' {
        l.drop_last()
    } else {
        l
    }
}

/// The lines of `s` ended so far, and the line being read.
pub open spec fn line_state(s: Seq<char>) -> (Seq<Seq<char>>, Seq<char>)
    decreases s.len(),
{
    if s.len() == 0 {
        (seq![], seq![])
    } else {
        let (done, cur) = line_state(s.drop_last());
        if s.last() == '\n' {
            (done.push(strip_cr(cur)), seq![])
        } else {
            (done, cur.push(s.last()))
        }
    }
}

/// The lines of `s`: split at `\n` or `\r\n`; a last line without an ending counts if not empty.
pub open spec fn text_lines(s: Seq<char>) -> Seq<Seq<char>> {
    let (done, cur) = line_state(s);
    if cur.len() > 0 {
        done.push(cur)
    } else {
        done
    }
}

/// `s` without a leading byte-order mark.
pub open spec fn without_bom(s: Seq<char>) -> Seq<char> {
    if s.len() > 0 && s[0] == '\u{feff}' {
        s.drop_first()
    } else {
        s
    }
}

/// The resources that the lines name, in order; other lines are skipped.
pub open spec fn lines_rows(ls: Seq<Seq<char>>) -> Seq<Row>
    decreases ls.len(),
{
    if ls.len() == 0 {
        seq![]
    } else {
        match parse_line(ls.last()) {
            Some(r) => lines_rows(ls.drop_last()).push(r),
            None => lines_rows(ls.drop_last()),
        }
    }
}

/// The resources of a .restext text.
pub open spec fn parse_restext(s: Seq<char>) -> Seq<Row> {
    lines_rows(text_lines(without_bom(s)))
}

/// A value with backslash, carriage return and line feed escaped.
pub open spec fn escape(v: Seq<char>) -> Seq<char>
    decreases v.len(),
{
    if v.len() == 0 {
        seq![]
    } else {
        let c = v.last();
        escape(v.drop_last()) + if c == '\\' {
            seq!['\\', '\\']
        } else if c == '\r' {
            seq!['\\', 'r']
        } else if c == '\n' {
            seq!['\\', 'n']
        } else {
            seq![c]
        }
    }
}

/// The line of one resource, without its ending.
pub open spec fn resource_line(r: Row) -> Seq<char> {
    r.0 + seq!['='] + escape(r.1)
}

/// Each resource's line followed by `\r\n`.
pub open spec fn restext_body(rs: Seq<Row>) -> Seq<char>
    decreases rs.len(),
{
    if rs.len() == 0 {
        seq![]
    } else {
        restext_body(rs.drop_last()) + resource_line(rs.last()) + seq!['\r', '\n']
    }
}

/// The .restext text of a sequence of resources: a byte-order mark, then the lines.
pub open spec fn write_restext(rs: Seq<Row>) -> Seq<char> {
    seq!['\u{feff}'] + restext_body(rs)
}

fn parse_line_chars(l: &Vec<char>) -> (r: Option<Resource>)
    ensures
        match r {
            Some(x) => parse_line(l@) == Some(x@),
            None => parse_line(l@) is None,
        },
{
    let mut i: usize = 0;
    while i < l.len() && is_white_space(l[i])
        invariant
            i <= l.len(),
            skip_space(l@, 0) == skip_space(l@, i as int),
        decreases l.len() - i,
    {
        i = i + 1;
    }
    let mut j: usize = i;
    while j < l.len() && is_word_char(l[j])
        invariant
            i <= j <= l.len(),
            skip_space(l@, 0) == i,
            skip_word(l@, i as int) == skip_word(l@, j as int),
        decreases l.len() - j,
    {
        j = j + 1;
    }
    if i < j && j < l.len() && l[j] == '=' {
        let mut name: Vec<char> = Vec::new();
        let mut k: usize = i;
        while k < j
            invariant
                i <= k <= j,
                j < l.len(),
                name@ == l@.subrange(i as int, k as int),
            decreases j - k,
        {
            name.push(l[k]);
            k = k + 1;
            assert(name@ =~= l@.subrange(i as int, k as int));
        }
        let mut value: Vec<char> = Vec::new();
        let mut k: usize = j + 1;
        while k < l.len()
            invariant
                j + 1 <= k <= l.len(),
                value@ == l@.subrange(j + 1, k as int),
            decreases l.len() - k,
        {
            value.push(l[k]);
            k = k + 1;
            assert(value@ =~= l@.subrange(j + 1, k as int));
        }
        assert(value@ =~= l@.skip(j + 1));
        Some(Resource { name: string_of(name.as_slice()), value: string_of(value.as_slice()) })
    } else {
        None
    }
}

/// Adds the resource that line `l` names, if any, to `out`.
fn take_line(out: &mut Vec<Resource>, l: &Vec<char>)
    ensures
        rows(final(out)@) == match parse_line(l@) {
            Some(r) => rows(old(out)@).push(r),
            None => rows(old(out)@),
        },
{
    match parse_line_chars(l) {
        Some(x) => {
            let ghost before = out@;
            out.push(x);
            assert(rows(out@) =~= rows(before).push(x@));
        },
        None => {},
    }
}

/// The resources of a .restext text, in order.
pub fn parse_text(text: &str) -> (r: Vec<Resource>)
    ensures
        rows(r@) == parse_restext(text@),
{
    let all = chars_of(text);
    let start: usize = if all.len() > 0 && all[0] == '\u{feff}' { 1 } else { 0 };
    let ghost s = without_bom(text@);
    assert(s =~= all@.skip(start as int));
    let mut out: Vec<Resource> = Vec::new();
    let ghost mut done: Seq<Seq<char>> = seq![];
    let mut cur: Vec<char> = Vec::new();
    let mut i: usize = start;
    while i < all.len()
        invariant
            start <= i <= all.len(),
            s == all@.skip(start as int),
            line_state(s.take(i - start)) == (done, cur@),
            rows(out@) == lines_rows(done),
        decreases all.len() - i,
    {
        assert(s.take(i + 1 - start).drop_last() =~= s.take(i - start));
        assert(s.take(i + 1 - start).last() == all@[i as int]);
        let c = all[i];
        if c == '\n' {
            if cur.len() > 0 && cur[cur.len() - 1] == '\r' {
                cur.pop();
            }
            take_line(&mut out, &cur);
            proof {
                assert(done.push(cur@).drop_last() =~= done);
                done = done.push(cur@);
            }
            cur = Vec::new();
        } else {
            cur.push(c);
        }
        i = i + 1;
    }
    assert(s.take(all.len() - start) =~= s);
    if cur.len() > 0 {
        take_line(&mut out, &cur);
        assert(done.push(cur@).drop_last() =~= done);
    }
    out
}

/// Appends `v` to `out` with backslash, carriage return and line feed escaped.
fn push_escaped(out: &mut Vec<char>, v: &Vec<char>)
    ensures
        final(out)@ == old(out)@ + escape(v@),
{
    let mut i: usize = 0;
    while i < v.len()
        invariant
            i <= v.len(),
            out@ == old(out)@ + escape(v@.take(i as int)),
        decreases v.len() - i,
    {
        assert(v@.take(i + 1).drop_last() =~= v@.take(i as int));
        let c = v[i];
        if c == '\\' {
            out.push('\\');
            out.push('\\');
        } else if c == '\r' {
            out.push('\\');
            out.push('r');
        } else if c == '\n' {
            out.push('\\');
            out.push('n');
        } else {
            out.push(c);
        }
        i = i + 1;
        assert(out@ =~= old(out)@ + escape(v@.take(i as int)));
    }
    assert(v@.take(v@.len() as int) =~= v@);
}

fn push_all(out: &mut Vec<char>, v: &Vec<char>)
    ensures
        final(out)@ == old(out)@ + v@,
{
    let mut i: usize = 0;
    while i < v.len()
        invariant
            i <= v.len(),
            out@ == old(out)@ + v@.take(i as int),
        decreases v.len() - i,
    {
        out.push(v[i]);
        i = i + 1;
        assert(out@ =~= old(out)@ + v@.take(i as int));
    }
    assert(v@.take(v@.len() as int) =~= v@);
}

/// The .restext text of `resources`: a byte-order mark, then `name=value\r\n`
/// for each, with backslash, carriage return and line feed escaped in values.
pub fn write_text(resources: &Vec<Resource>) -> (r: String)
    ensures
        r@ == write_restext(rows(resources@)),
{
    let mut out: Vec<char> = Vec::new();
    out.push('\u{feff}');
    let mut i: usize = 0;
    while i < resources.len()
        invariant
            i <= resources.len(),
            out@ == seq!['\u{feff}'] + restext_body(rows(resources@).take(i as int)),
        decreases resources.len() - i,
    {
        let ghost rs = rows(resources@);
        assert(rs.take(i + 1).drop_last() =~= rs.take(i as int));
        assert(rs.take(i + 1).last() == resources@[i as int]@);
        let name = chars_of(resources[i].name.as_str());
        let value = chars_of(resources[i].value.as_str());
        push_all(&mut out, &name);
        out.push('=');
        push_escaped(&mut out, &value);
        out.push('\r');
        out.push('\n');
        i = i + 1;
        assert(out@ =~= seq!['\u{feff}'] + restext_body(rs.take(i as int)));
    }
    assert(rows(resources@).take(resources.len() as int) =~= rows(resources@));
    string_of(out.as_slice())
}

/// The .restext format.
pub struct RestextFileFormat {}

impl RestextFileFormat {
    pub const EXTENSION: &'static str = "restext";

    /// The resources of a .restext text, in order.
    pub fn parse_from_str(&self, text: &str) -> (r: Vec<Resource>)
        ensures
            rows(r@) == parse_restext(text@),
    {
        parse_text(text)
    }

    /// The .restext text of `resources`.
    pub fn write_to_str(&self, resources: &Vec<Resource>) -> (r: String)
        ensures
            r@ == write_restext(rows(resources@)),
    {
        write_text(resources)
    }
}

/// A resource that a .restext line can carry unchanged: a key of key
/// characters, a value without backslash, carriage return or line feed.
pub open spec fn plain_row(r: Row) -> bool {
    &&& r.0.len() > 0
    &&& forall|k: int| 0 <= k < r.0.len() ==> word_char(#[trigger] r.0[k])
    &&& forall|k: int| 0 <= k < r.1.len() ==> {
        let c = #[trigger] r.1[k];
        c != '\\' && c != '\r' && c != '\n'
    }
}

proof fn lemma_line_state_word(x: Seq<char>, w: Seq<char>)
    requires
        forall|j: int| 0 <= j < w.len() ==> w[j] != '\n',
    ensures
        line_state(x + w) == (line_state(x).0, line_state(x).1 + w),
    decreases w.len(),
{
    if w.len() > 0 {
        assert((x + w).drop_last() =~= x + w.drop_last());
        lemma_line_state_word(x, w.drop_last());
        assert(line_state(x).1 + w =~= (line_state(x).1 + w.drop_last()).push(w.last()));
    } else {
        assert(x + w =~= x);
        assert(line_state(x).1 + w =~= line_state(x).1);
    }
}

proof fn lemma_escape_plain(v: Seq<char>)
    requires
        forall|k: int| 0 <= k < v.len() ==> {
            let c = #[trigger] v[k];
            c != '\\' && c != '\r' && c != '\n'
        },
    ensures
        escape(v) == v,
    decreases v.len(),
{
    if v.len() > 0 {
        lemma_escape_plain(v.drop_last());
        assert(v.drop_last().push(v.last()) =~= v);
    }
}

proof fn lemma_skip_word_run(l: Seq<char>, i: int, j: int)
    requires
        0 <= i <= j <= l.len(),
        forall|k: int| i <= k < j ==> word_char(#[trigger] l[k]),
        j == l.len() || !word_char(l[j]),
    ensures
        skip_word(l, i) == j,
    decreases j - i,
{
    if i < j {
        lemma_skip_word_run(l, i + 1, j);
    }
}

proof fn lemma_skip_word_chars(l: Seq<char>, i: int)
    requires
        0 <= i <= l.len(),
    ensures
        i <= skip_word(l, i) <= l.len(),
        forall|k: int| i <= k < skip_word(l, i) ==> word_char(#[trigger] l[k]),
    decreases l.len() - i,
{
    if i < l.len() && word_char(l[i]) {
        lemma_skip_word_chars(l, i + 1);
    }
}

proof fn lemma_skip_space_bound(l: Seq<char>, i: int)
    requires
        0 <= i <= l.len(),
    ensures
        i <= skip_space(l, i) <= l.len(),
    decreases l.len() - i,
{
    if i < l.len() && white_space(l[i]) {
        lemma_skip_space_bound(l, i + 1);
    }
}

proof fn lemma_parse_resource_line(r: Row)
    requires
        plain_row(r),
    ensures
        parse_line(resource_line(r)) == Some(r),
{
    let l = resource_line(r);
    lemma_escape_plain(r.1);
    assert(l =~= r.0 + seq!['='] + r.1);
    assert(l[0] == r.0[0]);
    assert(word_char(r.0[0]));
    assert(skip_space(l, 0) == 0);
    assert forall|k: int| 0 <= k < r.0.len() implies word_char(#[trigger] l[k]) by {
        assert(l[k] == r.0[k]);
    }
    assert(l[r.0.len() as int] == '=');
    lemma_skip_word_run(l, 0, r.0.len() as int);
    assert(l.subrange(0, r.0.len() as int) =~= r.0);
    assert(l.skip(r.0.len() as int + 1) =~= r.1);
}

proof fn lemma_body_lines(rs: Seq<Row>)
    requires
        forall|k: int| 0 <= k < rs.len() ==> plain_row(#[trigger] rs[k]),
    ensures
        line_state(restext_body(rs)) == (rs.map_values(|r: Row| resource_line(r)), Seq::<char>::empty()),
    decreases rs.len(),
{
    if rs.len() == 0 {
        assert(rs.map_values(|r: Row| resource_line(r)) =~= seq![]);
    } else {
        let prev = rs.drop_last();
        assert forall|k: int| 0 <= k < prev.len() implies plain_row(#[trigger] prev[k]) by {
            assert(prev[k] == rs[k]);
        }
        lemma_body_lines(prev);
        let r = rs.last();
        assert(plain_row(rs[rs.len() - 1]));
        let l = resource_line(r);
        lemma_escape_plain(r.1);
        let w = l.push('\r');
        assert forall|j: int| 0 <= j < w.len() implies w[j] != '\n' by {
            if j < r.0.len() {
                assert(w[j] == r.0[j]);
                assert(word_char(r.0[j]));
            } else if j > r.0.len() && j < l.len() {
                assert(w[j] == r.1[j - r.0.len() - 1]);
            }
        }
        let x = restext_body(prev);
        lemma_line_state_word(x, w);
        let body = restext_body(rs);
        assert(body =~= (x + w).push('\n'));
        assert(body.drop_last() =~= x + w);
        assert(Seq::<char>::empty() + w =~= w);
        assert(w.drop_last() =~= l);
        assert(rs.map_values(|r: Row| resource_line(r)) =~= prev.map_values(|r: Row| resource_line(r)).push(l));
    }
}

proof fn lemma_lines_rows_plain(rs: Seq<Row>)
    requires
        forall|k: int| 0 <= k < rs.len() ==> plain_row(#[trigger] rs[k]),
    ensures
        lines_rows(rs.map_values(|r: Row| resource_line(r))) == rs,
    decreases rs.len(),
{
    if rs.len() > 0 {
        let prev = rs.drop_last();
        assert forall|k: int| 0 <= k < prev.len() implies plain_row(#[trigger] prev[k]) by {
            assert(prev[k] == rs[k]);
        }
        lemma_lines_rows_plain(prev);
        assert(plain_row(rs[rs.len() - 1]));
        lemma_parse_resource_line(rs.last());
        let ls = rs.map_values(|r: Row| resource_line(r));
        assert(ls.drop_last() =~= prev.map_values(|r: Row| resource_line(r)));
        assert(prev.push(rs.last()) =~= rs);
    }
}

/// Writing resources that a .restext line carries unchanged and parsing the
/// text gives them back.
pub proof fn lemma_restext_write_parse(rs: Seq<Row>)
    requires
        forall|k: int| 0 <= k < rs.len() ==> plain_row(#[trigger] rs[k]),
    ensures
        parse_restext(write_restext(rs)) == rs,
{
    let body = restext_body(rs);
    assert(without_bom(write_restext(rs)) =~= body);
    lemma_body_lines(rs);
    lemma_lines_rows_plain(rs);
}

proof fn lemma_lines_have_no_newline(s: Seq<char>)
    ensures
        forall|j: int, k: int|
            0 <= j < line_state(s).0.len() && 0 <= k < line_state(s).0[j].len() ==> #[trigger] line_state(s).0[j][k] != '\n',
        forall|k: int| 0 <= k < line_state(s).1.len() ==> #[trigger] line_state(s).1[k] != '\n',
    decreases s.len(),
{
    if s.len() > 0 {
        lemma_lines_have_no_newline(s.drop_last());
        let (done, cur) = line_state(s.drop_last());
        if s.last() == '\n' {
            let st = strip_cr(cur);
            assert forall|k: int| 0 <= k < st.len() implies st[k] != '\n' by {
                assert(st[k] == cur[k]);
            }
            assert forall|j: int, k: int|
                0 <= j < line_state(s).0.len() && 0 <= k < line_state(s).0[j].len() implies #[trigger] line_state(s).0[j][k] != '\n' by {
                if j < done.len() {
                    assert(line_state(s).0[j] == done[j]);
                }
            }
        }
    }
}

proof fn lemma_lines_rows_plain_out(ls: Seq<Seq<char>>)
    requires
        forall|j: int, k: int| 0 <= j < ls.len() && 0 <= k < ls[j].len() ==> #[trigger] ls[j][k] != '\n',
    ensures
        forall|k: int| 0 <= k < lines_rows(ls).len() ==> {
            let r = #[trigger] lines_rows(ls)[k];
            &&& r.0.len() > 0
            &&& forall|i: int| 0 <= i < r.0.len() ==> word_char(#[trigger] r.0[i])
            &&& forall|i: int| 0 <= i < r.1.len() ==> #[trigger] r.1[i] != '\n'
        },
    decreases ls.len(),
{
    if ls.len() > 0 {
        let prev = ls.drop_last();
        assert forall|j: int, k: int| 0 <= j < prev.len() && 0 <= k < prev[j].len() implies #[trigger] prev[j][k] != '\n' by {
            assert(prev[j] == ls[j]);
        }
        lemma_lines_rows_plain_out(prev);
        let l = ls.last();
        match parse_line(l) {
            Some(r) => {
                let i = skip_space(l, 0);
                lemma_skip_space_bound(l, 0);
                lemma_skip_word_chars(l, i);
                let j = skip_word(l, i);
                assert forall|x: int| 0 <= x < r.0.len() implies word_char(#[trigger] r.0[x]) by {
                    assert(r.0[x] == l[i + x]);
                }
                assert forall|x: int| 0 <= x < r.1.len() implies #[trigger] r.1[x] != '\n' by {
                    assert(r.1[x] == l[j + 1 + x]);
                    assert(l == ls[ls.len() - 1]);
                }
                let out = lines_rows(ls);
                assert(out == lines_rows(prev).push(r));
                assert forall|k: int| 0 <= k < out.len() implies {
                    let q = #[trigger] out[k];
                    &&& q.0.len() > 0
                    &&& forall|i: int| 0 <= i < q.0.len() ==> word_char(#[trigger] q.0[i])
                    &&& forall|i: int| 0 <= i < q.1.len() ==> #[trigger] q.1[i] != '\n'
                } by {
                    if k < out.len() - 1 {
                        assert(out[k] == lines_rows(prev)[k]);
                    }
                }
            },
            None => {},
        }
    }
}

/// Parsing a .restext text, writing the resources and parsing again gives
/// the same resources, wherever no value read holds a backslash or a
/// carriage return (which the writer escapes and the reader keeps as written).
pub proof fn lemma_restext_round_trip(text: Seq<char>)
    requires
        forall|k: int, i: int|
            0 <= k < parse_restext(text).len() && 0 <= i < parse_restext(text)[k].1.len() ==> {
                let c = #[trigger] parse_restext(text)[k].1[i];
                c != '\\' && c != '\r'
            },
    ensures
        parse_restext(write_restext(parse_restext(text))) == parse_restext(text),
{
    let s = without_bom(text);
    lemma_lines_have_no_newline(s);
    let ls = text_lines(s);
    assert forall|j: int, k: int| 0 <= j < ls.len() && 0 <= k < ls[j].len() implies #[trigger] ls[j][k] != '\n' by {
        if j < line_state(s).0.len() {
            assert(ls[j] == line_state(s).0[j]);
        } else {
            assert(ls[j] == line_state(s).1);
        }
    }
    lemma_lines_rows_plain_out(ls);
    let rs = parse_restext(text);
    assert forall|k: int| 0 <= k < rs.len() implies plain_row(#[trigger] rs[k]) by {
        let r = rs[k];
        assert forall|i: int| 0 <= i < r.1.len() implies {
            let c = #[trigger] r.1[i];
            c != '\\' && c != '\r' && c != '\n'
        } by {
            assert(rs[k].1[i] == r.1[i]);
        }
    }
    lemma_restext_write_parse(rs);
}

} // verus!
