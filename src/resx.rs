//! The .resx format: an XML document whose `data` elements carry the resources.
use vstd::prelude::*;
use crate::error::CirupError;
use crate::query::same_text;
use crate::resource::{Resource, Row, rows};
use crate::text::{chars_of, string_of};
use crate::revision::opt_view;

verus! {

/// A child of a `data` element: its tag name and text.
pub struct XmlLeaf {
    pub name: String,
    pub text: Option<String>,
}

/// A child of the root element: its tag name, its `name` attribute and its children.
pub struct XmlData {
    pub name: String,
    pub name_attribute: Option<String>,
    pub children: Vec<XmlLeaf>,
}

/// A child of a `data` element as a value: its tag name and text.
pub type LeafView = (Seq<char>, Option<Seq<char>>);

/// A child of the root as a value: its tag name, its `name` attribute and its children.
pub type DataView = (Seq<char>, Option<Seq<char>>, Seq<LeafView>);

pub open spec fn leaf_view(l: XmlLeaf) -> LeafView {
    (l.name@, opt_view(l.text))
}

pub open spec fn data_view(d: XmlData) -> DataView {
    (d.name@, opt_view(d.name_attribute), d.children@.map_values(|l: XmlLeaf| leaf_view(l)))
}

pub open spec fn data_views(ds: Seq<XmlData>) -> Seq<DataView> {
    ds.map_values(|d: XmlData| data_view(d))
}

/// What `treexml` reads in `text`, where it is an XML document: the children
/// of its root element in order (none where it has no root), each with its
/// tag name, the value of its attribute `attribute`, and its own children's
/// tag names and texts.
pub uninterp spec fn xml_root_children(text: Seq<char>, attribute: Seq<char>) -> Option<Seq<DataView>>;

/// Relies on `treexml::Document::parse` and the fields of `treexml::Element`:
/// the children of the root and their children, or the parser's message.
#[verifier::external_body]
fn read_xml(text: &str, attribute: &str) -> (r: Result<Vec<XmlData>, String>)
    ensures
        match r {
            Ok(v) => xml_root_children(text@, attribute@) == Some(data_views(v@)),
            Err(_) => xml_root_children(text@, attribute@) is None,
        },
{
    let doc = treexml::Document::parse(text.as_bytes()).map_err(|e| e.to_string())?;
    Ok(match doc.root {
        None => Vec::new(),
        Some(root) => root.children.into_iter().map(|c| XmlData {
            name_attribute: c.attributes.get(attribute).cloned(),
            children: c.children.into_iter().map(|g| XmlLeaf { name: g.name, text: g.text }).collect(),
            name: c.name,
        }).collect(),
    })
}

/// The text of the first child named `value`: empty where it has none.
pub open spec fn value_text(cs: Seq<LeafView>) -> Option<Seq<char>>
    decreases cs.len(),
{
    if cs.len() == 0 {
        None
    } else if cs[0].0 == "value"@ {
        Some(
            match cs[0].1 {
                Some(t) => t,
                None => seq![],
            },
        )
    } else {
        value_text(cs.drop_first())
    }
}

/// The resources that the children of the root carry: one per `data`
/// element, keyed by its `name` attribute, with the text of its `value`
/// child; `None` where a `data` element lacks either.  Other elements are skipped.
pub open spec fn resx_rows(ds: Seq<DataView>) -> Option<Seq<Row>>
    decreases ds.len(),
{
    if ds.len() == 0 {
        Some(seq![])
    } else {
        match resx_rows(ds.drop_last()) {
            None => None,
            Some(p) => {
                let d = ds.last();
                if d.0 != "data"@ {
                    Some(p)
                } else {
                    match (d.1, value_text(d.2)) {
                        (Some(n), Some(v)) => Some(p.push((n, v))),
                        _ => None,
                    }
                }
            },
        }
    }
}

fn value_of(cs: &Vec<XmlLeaf>) -> (r: Option<String>)
    ensures
        match r {
            Some(t) => value_text(cs@.map_values(|l: XmlLeaf| leaf_view(l))) == Some(t@),
            None => value_text(cs@.map_values(|l: XmlLeaf| leaf_view(l))) is None,
        },
{
    let ghost lv = cs@.map_values(|l: XmlLeaf| leaf_view(l));
    let mut i: usize = 0;
    assert(lv.skip(0) =~= lv);
    while i < cs.len()
        invariant
            i <= cs.len(),
            lv == cs@.map_values(|l: XmlLeaf| leaf_view(l)),
            value_text(lv) == value_text(lv.skip(i as int)),
        decreases cs.len() - i,
    {
        assert(lv.skip(i as int).drop_first() =~= lv.skip(i + 1));
        assert(lv.skip(i as int)[0] == leaf_view(cs@[i as int]));
        if same_text(cs[i].name.as_str(), "value") {
            return match &cs[i].text {
                Some(t) => Some(t.clone()),
                None => Some(String::new()),
            };
        }
        i = i + 1;
    }
    None
}

/// The resources that the children of a .resx root carry, in order.
pub fn resources_from_data(ds: &Vec<XmlData>) -> (r: Result<Vec<Resource>, CirupError>)
    ensures
        match r {
            Ok(v) => resx_rows(data_views(ds@)) == Some(rows(v@)),
            Err(e) => resx_rows(data_views(ds@)) is None && e is Parse,
        },
{
    let ghost dv = data_views(ds@);
    let mut out: Vec<Resource> = Vec::new();
    let mut i: usize = 0;
    while i < ds.len()
        invariant
            i <= ds.len(),
            dv == data_views(ds@),
            resx_rows(dv.take(i as int)) == Some(rows(out@)),
        decreases ds.len() - i,
    {
        assert(dv.take(i + 1).drop_last() =~= dv.take(i as int));
        assert(dv.take(i + 1).last() == data_view(ds@[i as int]));
        let d = &ds[i];
        if same_text(d.name.as_str(), "data") {
            match (&d.name_attribute, value_of(&d.children)) {
                (Some(n), Some(v)) => {
                    let ghost before = out@;
                    out.push(Resource { name: n.clone(), value: v });
                    assert(rows(out@) =~= rows(before).push(out@.last()@));
                },
                _ => {
                    proof {
                        lemma_resx_rows_error(dv, i as int + 1);
                    }
                    return Err(CirupError::Parse(String::from_str("a data element lacks a name or a value")));
                },
            }
        }
        i = i + 1;
    }
    assert(dv.take(ds.len() as int) =~= dv);
    Ok(out)
}

proof fn lemma_resx_rows_error(ds: Seq<DataView>, n: int)
    requires
        0 <= n <= ds.len(),
        resx_rows(ds.take(n)) is None,
    ensures
        resx_rows(ds) is None,
    decreases ds.len() - n,
{
    if n < ds.len() {
        assert(ds.take(n + 1).drop_last() =~= ds.take(n));
        lemma_resx_rows_error(ds, n + 1);
    } else {
        assert(ds.take(n) =~= ds);
    }
}

/// `s` without a leading byte-order mark.
pub open spec fn strip_bom(s: Seq<char>) -> Seq<char> {
    if s.len() > 0 && s[0] == '\u{feff}' {
        s.drop_first()
    } else {
        s
    }
}

/// `text` without a leading byte-order mark.
pub fn without_bom(text: &str) -> (r: String)
    ensures
        r@ == strip_bom(text@),
{
    let cs = chars_of(text);
    if cs.len() > 0 && cs[0] == '\u{feff}' {
        let mut out: Vec<char> = Vec::new();
        let mut i: usize = 1;
        while i < cs.len()
            invariant
                1 <= i <= cs.len(),
                out@ == cs@.subrange(1, i as int),
            decreases cs.len() - i,
        {
            out.push(cs[i]);
            i = i + 1;
            assert(out@ =~= cs@.subrange(1, i as int));
        }
        assert(out@ =~= text@.drop_first());
        string_of(out.as_slice())
    } else {
        text.to_owned()
    }
}

/// The resources of a .resx text, where it is a well-formed document whose
/// `data` elements all have a name and a value.
pub open spec fn resx_text_rows(text: Seq<char>) -> Option<Seq<Row>> {
    let k = document_start(text, 0);
    if k >= text.len() {
        Some(seq![])
    } else {
        match xml_root_children(text.skip(k), "name"@) {
            Some(ds) => resx_rows(ds),
            None => None,
        }
    }
}

/// XML white space: space, tab, carriage return, line feed.
pub open spec fn xml_space(c: char) -> bool {
    c == ' ' || c == '\t' || c == '\r' || c == '\n'
}

/// The index where the document starts: after a leading byte-order mark
/// and the white space that follows it.
pub open spec fn document_start(s: Seq<char>, i: int) -> int
    decreases s.len() - i,
{
    if 0 <= i < s.len() && (xml_space(s[i]) || (i == 0 && s[i] == '\u{feff}')) {
        document_start(s, i + 1)
    } else {
        i
    }
}

/// Text with `&`, `<` and `>` written as entities, and in an attribute also `"` and `'`.
pub open spec fn xml_escape(s: Seq<char>, attribute: bool) -> Seq<char>
    decreases s.len(),
{
    if s.len() == 0 {
        seq![]
    } else {
        let c = s.last();
        xml_escape(s.drop_last(), attribute) + if c == '&' {
            seq!['&', 'a', 'm', 'p', ';']
        } else if c == '<' {
            seq!['&', 'l', 't', ';']
        } else if c == '>' {
            seq!['&', 'g', 't', ';']
        } else if attribute && c == '"' {
            seq!['&', 'q', 'u', 'o', 't', ';']
        } else if attribute && c == '\'' {
            seq!['&', 'a', 'p', 'o', 's', ';']
        } else {
            seq![c]
        }
    }
}

fn escape_xml(v: &str, attribute: bool) -> (r: String)
    ensures
        r@ == xml_escape(v@, attribute),
{
    let cs = chars_of(v);
    let mut out: Vec<char> = Vec::new();
    let mut i: usize = 0;
    while i < cs.len()
        invariant
            i <= cs.len(),
            cs@ == v@,
            out@ == xml_escape(cs@.take(i as int), attribute),
        decreases cs.len() - i,
    {
        assert(cs@.take(i + 1).drop_last() =~= cs@.take(i as int));
        let ghost before = out@;
        let c = cs[i];
        if c == '&' {
            out.push('&');
            out.push('a');
            out.push('m');
            out.push('p');
            out.push(';');
        } else if c == '<' {
            out.push('&');
            out.push('l');
            out.push('t');
            out.push(';');
        } else if c == '>' {
            out.push('&');
            out.push('g');
            out.push('t');
            out.push(';');
        } else if attribute && c == '"' {
            out.push('&');
            out.push('q');
            out.push('u');
            out.push('o');
            out.push('t');
            out.push(';');
        } else if attribute && c == '\'' {
            out.push('&');
            out.push('a');
            out.push('p');
            out.push('o');
            out.push('s');
            out.push(';');
        } else {
            out.push(c);
        }
        i = i + 1;
        assert(out@ =~= xml_escape(cs@.take(i as int), attribute));
    }
    assert(cs@.take(cs@.len() as int) =~= cs@);
    string_of(out.as_slice())
}

/// The block of one resource.
pub open spec fn resx_entry(r: Row) -> Seq<char> {
    "\n  <data name=\""@ + xml_escape(r.0, true) + "\" xml:space=\"preserve\">\n    <value>"@
        + xml_escape(r.1, false) + "</value>\n  </data>"@
}

/// The blocks of all resources, in order.
pub open spec fn resx_entries(rs: Seq<Row>) -> Seq<char>
    decreases rs.len(),
{
    if rs.len() == 0 {
        seq![]
    } else {
        resx_entries(rs.drop_last()) + resx_entry(rs.last())
    }
}

/// The .resx text of a sequence of resources, without a final newline.
pub open spec fn write_resx(rs: Seq<Row>) -> Seq<char> {
    if rs.len() == 0 {
        "<?xml version=\"1.0\" encoding=\"utf-8\"?>\n<root />"@
    } else {
        "<?xml version=\"1.0\" encoding=\"utf-8\"?>\n<root>"@ + resx_entries(rs) + "\n</root>"@
    }
}

/// The .resx format.
pub struct ResxFileFormat {}

impl ResxFileFormat {
    pub const EXTENSION: &'static str = "resx";

    /// The resources of a .resx text: every `data` child of the root, in
    /// order.  A byte-order mark and white space before the document are
    /// skipped; a text that holds nothing else holds no resource.
    pub fn parse_from_str(&self, text: &str) -> (r: Result<Vec<Resource>, CirupError>)
        ensures
            match resx_text_rows(text@) {
                Some(rs) => r is Ok && rows(r->Ok_0@) == rs,
                None => r is Err && r->Err_0 is Parse,
            },
    {
        let cs = chars_of(text);
        let mut start: usize = 0;
        while start < cs.len() && (cs[start] == ' ' || cs[start] == '\t' || cs[start] == '\r'
            || cs[start] == '\n' || (start == 0 && cs[start] == '\u{feff}'))
            invariant
                start <= cs.len(),
                cs@ == text@,
                document_start(text@, 0) == document_start(text@, start as int),
            decreases cs.len() - start,
        {
            start = start + 1;
        }
        if start == cs.len() {
            let v: Vec<Resource> = Vec::new();
            assert(rows(v@) =~= seq![]);
            return Ok(v);
        }
        let mut body: Vec<char> = Vec::new();
        let mut i: usize = start;
        while i < cs.len()
            invariant
                start <= i <= cs.len(),
                cs@ == text@,
                body@ == cs@.subrange(start as int, i as int),
            decreases cs.len() - i,
        {
            body.push(cs[i]);
            i = i + 1;
            assert(body@ =~= cs@.subrange(start as int, i as int));
        }
        assert(body@ =~= text@.skip(start as int));
        let body = string_of(body.as_slice());
        match read_xml(body.as_str(), "name") {
            Err(m) => Err(CirupError::Parse(m)),
            Ok(ds) => resources_from_data(&ds),
        }
    }

    /// The .resx text of `resources`.
    pub fn write_to_str(&self, resources: &Vec<Resource>) -> (r: String)
        ensures
            r@ == write_resx(rows(resources@)),
    {
        let mut out = String::new();
        if resources.len() == 0 {
            out.append("<?xml version=\"1.0\" encoding=\"utf-8\"?>\n<root />");
            return out;
        }
        out.append("<?xml version=\"1.0\" encoding=\"utf-8\"?>\n<root>");
        let ghost head = out@;
        let mut i: usize = 0;
        while i < resources.len()
            invariant
                i <= resources.len(),
                out@ == head + resx_entries(rows(resources@).take(i as int)),
            decreases resources.len() - i,
        {
            let ghost rs = rows(resources@);
            assert(rs.take(i + 1).drop_last() =~= rs.take(i as int));
            assert(rs.take(i + 1).last() == resources@[i as int]@);
            out.append("\n  <data name=\"");
            out.append(escape_xml(resources[i].name.as_str(), true).as_str());
            out.append("\" xml:space=\"preserve\">\n    <value>");
            out.append(escape_xml(resources[i].value.as_str(), false).as_str());
            out.append("</value>\n  </data>");
            i = i + 1;
            assert(out@ =~= head + resx_entries(rs.take(i as int)));
        }
        assert(rows(resources@).take(resources.len() as int) =~= rows(resources@));
        out.append("\n</root>");
        out
    }
}

} // verus!
