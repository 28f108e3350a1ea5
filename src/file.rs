//! Resource files: the format that an extension selects, and the cache of
//! named texts that stand in for files.
use vstd::prelude::*;
use crate::error::CirupError;
use crate::resource::{Resource, Row, rows};
use crate::restext::{RestextFileFormat, parse_restext, write_restext};
use crate::resx::{ResxFileFormat, write_resx, resx_text_rows};
use crate::json::{JsonFileFormat, build_entries, json_text_rows, pretty_json, compact_view, JsonView};
use crate::revision::{ext_of, name_part};
use crate::query::same_text;
use crate::text::{chars_of, string_of, lower_ascii, to_lower_ascii};

verus! {

/// The formats that the library reads and writes.
#[derive(PartialEq, Eq, Structural, Clone, Copy, Debug)]
pub enum FormatType {
    Unknown,
    Json,
    Resx,
    Restext,
}

/// The format that an extension names, compared without regard to ASCII case.
pub open spec fn format_of(extension: Seq<char>) -> FormatType {
    let e = extension.map_values(|c: char| lower_ascii(c));
    if e == "json"@ {
        FormatType::Json
    } else if e == "resx"@ {
        FormatType::Resx
    } else if e == "restext"@ {
        FormatType::Restext
    } else {
        FormatType::Unknown
    }
}

/// The format of a file name: that of its extension, unknown without one.
pub open spec fn format_of_file(filename: Seq<char>) -> FormatType {
    match ext_of(name_part(filename)) {
        Some(e) => format_of(e),
        None => FormatType::Unknown,
    }
}

/// The format that `extension` names.
pub fn get_format_type_from_extension(extension: &str) -> (r: FormatType)
    ensures
        r == format_of(extension@),
{
    let cs = chars_of(extension);
    let mut lower: Vec<char> = Vec::new();
    let mut i: usize = 0;
    while i < cs.len()
        invariant
            i <= cs.len(),
            cs@ == extension@,
            lower@ == cs@.take(i as int).map_values(|c: char| lower_ascii(c)),
        decreases cs.len() - i,
    {
        lower.push(to_lower_ascii(cs[i]));
        i = i + 1;
        assert(lower@ =~= cs@.take(i as int).map_values(|c: char| lower_ascii(c)));
    }
    assert(cs@.take(cs@.len() as int) =~= cs@);
    let e = string_of(lower.as_slice());
    if same_text(e.as_str(), "json") {
        FormatType::Json
    } else if same_text(e.as_str(), "resx") {
        FormatType::Resx
    } else if same_text(e.as_str(), "restext") {
        FormatType::Restext
    } else {
        FormatType::Unknown
    }
}

/// The extension of the last component of `filename`, if it has one.
pub fn extension_of(filename: &str) -> (r: Option<String>)
    ensures
        match r {
            Some(e) => ext_of(name_part(filename@)) == Some(e@),
            None => ext_of(name_part(filename@)) is None,
        },
{
    let cs = chars_of(filename);
    let mut start: usize = 0;
    let mut dot: Option<usize> = None;
    let mut i: usize = 0;
    while i < cs.len()
        invariant
            i <= cs.len(),
            cs@ == filename@,
            start <= i,
            crate::revision::last_index(cs@.take(i as int), '/') + 1 == start,
            match dot {
                Some(k) => start < k < i && crate::revision::last_index(cs@.subrange(start as int, i as int), '.') == k - start,
                None => crate::revision::last_index(cs@.subrange(start as int, i as int), '.') <= 0,
            },
        decreases cs.len() - i,
    {
        assert(cs@.take(i + 1).drop_last() =~= cs@.take(i as int));
        assert(cs@.subrange(start as int, i + 1).drop_last() =~= cs@.subrange(start as int, i as int));
        if cs[i] == '/' {
            start = i + 1;
            dot = None;
            assert(cs@.subrange(start as int, i + 1) =~= seq![]);
        } else if cs[i] == '.' && i > start {
            dot = Some(i);
        }
        i = i + 1;
    }
    assert(cs@.take(cs@.len() as int) =~= cs@);
    let ghost name = name_part(filename@);
    assert(name =~= cs@.subrange(start as int, cs@.len() as int));
    match dot {
        Some(k) => {
            let mut e: Vec<char> = Vec::new();
            let mut j: usize = k + 1;
            while j < cs.len()
                invariant
                    k + 1 <= j <= cs.len(),
                    e@ == cs@.subrange(k + 1, j as int),
                decreases cs.len() - j,
            {
                e.push(cs[j]);
                j = j + 1;
                assert(e@ =~= cs@.subrange(k + 1, j as int));
            }
            assert(e@ =~= name.skip(k - start + 1));
            Some(string_of(e.as_slice()))
        },
        None => None,
    }
}

/// What every resource-file format offers.
pub trait FileFormat {
    /// The extension that selects the format.
    fn extension(&self) -> &'static str;

    /// The format's tag.
    fn format_type(&self) -> FormatType;

    /// The resources of a text in this format, in order.
    fn parse(&self, text: &str) -> Result<Vec<Resource>, CirupError>;

    /// The text in this format of a sequence of resources.
    fn write(&self, resources: &Vec<Resource>) -> Result<String, CirupError>;
}

impl FileFormat for JsonFileFormat {
    fn extension(&self) -> &'static str {
        JsonFileFormat::EXTENSION
    }

    fn format_type(&self) -> FormatType {
        FormatType::Json
    }

    fn parse(&self, text: &str) -> Result<Vec<Resource>, CirupError> {
        self.parse_from_str(text)
    }

    fn write(&self, resources: &Vec<Resource>) -> Result<String, CirupError> {
        self.write_to_str(resources)
    }
}

impl FileFormat for ResxFileFormat {
    fn extension(&self) -> &'static str {
        ResxFileFormat::EXTENSION
    }

    fn format_type(&self) -> FormatType {
        FormatType::Resx
    }

    fn parse(&self, text: &str) -> Result<Vec<Resource>, CirupError> {
        self.parse_from_str(text)
    }

    fn write(&self, resources: &Vec<Resource>) -> Result<String, CirupError> {
        Ok(self.write_to_str(resources))
    }
}

impl FileFormat for RestextFileFormat {
    fn extension(&self) -> &'static str {
        RestextFileFormat::EXTENSION
    }

    fn format_type(&self) -> FormatType {
        FormatType::Restext
    }

    fn parse(&self, text: &str) -> Result<Vec<Resource>, CirupError> {
        Ok(self.parse_from_str(text))
    }

    fn write(&self, resources: &Vec<Resource>) -> Result<String, CirupError> {
        Ok(self.write_to_str(resources))
    }
}

/// The resources of a text in format `f`: `None` where it does not parse.
/// An unknown format holds no resources.
pub open spec fn format_rows(f: FormatType, text: Seq<char>) -> Option<Seq<Row>> {
    match f {
        FormatType::Json => json_text_rows(text),
        FormatType::Resx => resx_text_rows(text),
        FormatType::Restext => Some(parse_restext(text)),
        FormatType::Unknown => Some(seq![]),
    }
}

/// The resources of `text` in the format that `extension` names; none for
/// an unknown format.
pub fn load_resource_str(text: &str, extension: &str) -> (r: Result<Vec<Resource>, CirupError>)
    ensures
        match format_rows(format_of(extension@), text@) {
            Some(rs) => r is Ok && rows(r->Ok_0@) == rs,
            None => r is Err && r->Err_0 is Parse,
        },
{
    match get_format_type_from_extension(extension) {
        FormatType::Json => {
            let json = JsonFileFormat {};
            json.parse_from_str(text)
        },
        FormatType::Resx => {
            let resx = ResxFileFormat {};
            resx.parse_from_str(text)
        },
        FormatType::Restext => {
            let restext = RestextFileFormat {};
            Ok(restext.parse_from_str(text))
        },
        FormatType::Unknown => {
            let v: Vec<Resource> = Vec::new();
            assert(rows(v@) =~= seq![]);
            Ok(v)
        },
    }
}

/// The resources of the file `filename` whose content is `text`, in the
/// format that its extension names; none for an unknown one.
pub fn load_resource_file(filename: &str, text: &str) -> (r: Result<Vec<Resource>, CirupError>)
    ensures
        match format_rows(format_of_file(filename@), text@) {
            Some(rs) => r is Ok && rows(r->Ok_0@) == rs,
            None => r is Err && r->Err_0 is Parse,
        },
{
    match extension_of(filename) {
        Some(e) => load_resource_str(text, e.as_str()),
        None => {
            let v: Vec<Resource> = Vec::new();
            assert(rows(v@) =~= seq![]);
            Ok(v)
        },
    }
}

/// The resources of the file `filename` as stored in `files`; `None` where
/// the cache holds no text under that name, and the file must be read instead.
pub fn load_resource_cached(files: &VirtualFiles, filename: &str) -> (r: Option<Result<Vec<Resource>, CirupError>>)
    ensures
        match files.text_of(filename@) {
            None => r is None,
            Some(t) => r is Some && match format_rows(format_of_file(filename@), t) {
                Some(rs) => r->0 is Ok && rows(r->0->Ok_0@) == rs,
                None => r->0 is Err && r->0->Err_0 is Parse,
            },
        },
{
    match vfile_get(files, filename) {
        Some(t) => Some(load_resource_file(filename, t.as_str())),
        None => None,
    }
}

/// The text to store in the file `filename` for `resources`, in the format
/// that its extension names; `None` for an unknown format, which is not written.
pub fn save_resource_file(filename: &str, resources: &Vec<Resource>) -> (r: Result<Option<String>, CirupError>)
    ensures
        format_of_file(filename@) == FormatType::Unknown ==> r == Ok::<Option<String>, CirupError>(None),
        format_of_file(filename@) == FormatType::Restext ==> r is Ok && r->Ok_0 is Some
            && r->Ok_0->0@ == write_restext(rows(resources@)),
        format_of_file(filename@) == FormatType::Resx ==> r is Ok && r->Ok_0 is Some
            && r->Ok_0->0@ == write_resx(rows(resources@)),
        format_of_file(filename@) == FormatType::Json ==> match build_entries(rows(resources@)) {
            Some(es) => r is Ok && r->Ok_0 is Some && r->Ok_0->0@ == pretty_json(compact_view(JsonView::Object(es))),
            None => r is Err && r->Err_0 is Validation,
        },
{
    let format = match extension_of(filename) {
        Some(e) => get_format_type_from_extension(e.as_str()),
        None => FormatType::Unknown,
    };
    match format {
        FormatType::Json => {
            let json = JsonFileFormat {};
            match json.write_to_str(resources) {
                Ok(t) => Ok(Some(t)),
                Err(e) => Err(e),
            }
        },
        FormatType::Resx => {
            let resx = ResxFileFormat {};
            Ok(Some(resx.write_to_str(resources)))
        },
        FormatType::Restext => {
            let restext = RestextFileFormat {};
            Ok(Some(restext.write_to_str(resources)))
        },
        FormatType::Unknown => Ok(None),
    }
}

/// The resources of the file `filename` whose content is `text`; none
/// where it does not parse, so that a batch of queries goes on.
pub fn load_resources(filename: &str, text: &str) -> (r: Vec<Resource>)
    ensures
        rows(r@) == match format_rows(format_of_file(filename@), text@) {
            Some(rs) => rs,
            None => seq![],
        },
{
    match load_resource_file(filename, text) {
        Ok(v) => v,
        Err(_) => {
            let v: Vec<Resource> = Vec::new();
            assert(rows(v@) =~= seq![]);
            v
        },
    }
}

/// Relies on `uuid::Uuid::new_v4` and its hyphenated text form: a random
/// identifier of 36 characters.
#[verifier::external_body]
fn new_uuid() -> (r: String)
    ensures
        r@.len() == 36,
{
    uuid::Uuid::new_v4().to_string()
}

/// A fresh id under which a text can be stored in a `VirtualFiles`.
pub fn vfile_id() -> (r: String)
    ensures
        r@.len() == 36,
{
    new_uuid()
}


/// The text of the last entry of `es` with id `id`.
pub open spec fn cached(es: Seq<(Seq<char>, Seq<char>)>, id: Seq<char>) -> Option<Seq<char>>
    decreases es.len(),
{
    if es.len() == 0 {
        None
    } else if es.last().0 == id {
        Some(es.last().1)
    } else {
        cached(es.drop_last(), id)
    }
}

proof fn lemma_cached_update(es: Seq<(Seq<char>, Seq<char>)>, i: int, id: Seq<char>, x: Seq<char>, other: Seq<char>)
    requires
        0 <= i < es.len(),
        es[i].0 == id,
        forall|j: int| i < j < es.len() ==> (#[trigger] es[j]).0 != id,
    ensures
        cached(es.update(i, (id, x)), other) == if other == id {
            Some(x)
        } else {
            cached(es, other)
        },
    decreases es.len(),
{
    let u = es.update(i, (id, x));
    if i == es.len() - 1 {
        assert(u.drop_last() =~= es.drop_last());
    } else {
        assert(u.drop_last() =~= es.drop_last().update(i, (id, x)));
        lemma_cached_update(es.drop_last(), i, id, x, other);
    }
}

/// Named texts that the loader reads in place of files.
pub struct VirtualFiles {
    entries: Vec<(String, String)>,
}

impl VirtualFiles {
    /// Each id with its text, in order of first storing.
    pub closed spec fn entries(&self) -> Seq<(Seq<char>, Seq<char>)> {
        self.entries@.map_values(|e: (String, String)| (e.0@, e.1@))
    }

    /// The text stored under `id`, if any.
    pub open spec fn text_of(&self, id: Seq<char>) -> Option<Seq<char>> {
        cached(self.entries(), id)
    }

    /// A cache that holds nothing.
    pub fn new() -> (r: VirtualFiles)
        ensures
            forall|id: Seq<char>| (#[trigger] r.text_of(id)) is None,
    {
        let r = VirtualFiles { entries: Vec::new() };
        assert(r.entries() =~= seq![]);
        r
    }
}

/// Stores `data` under `id`, replacing what was stored there.
pub fn vfile_set(files: &mut VirtualFiles, id: &str, data: &str)
    ensures
        forall|n: Seq<char>|
            #[trigger] final(files).text_of(n) == if n == id@ {
                Some(data@)
            } else {
                old(files).text_of(n)
            },
{
    let key = id.to_owned();
    let mut found: Option<usize> = None;
    let mut i: usize = 0;
    while i < files.entries.len()
        invariant
            i <= files.entries.len(),
            key@ == id@,
            files.entries().len() == files.entries@.len(),
            match found {
                Some(j) => j < i && files.entries()[j as int].0 == key@ && forall|k: int|
                    j < k < i ==> (#[trigger] files.entries()[k]).0 != key@,
                None => true,
            },
        decreases files.entries.len() - i,
    {
        if files.entries[i].0 == key {
            found = Some(i);
        }
        i = i + 1;
    }
    let ghost before = files.entries();
    let ghost entry = (id@, data@);
    match found {
        Some(j) => {
            files.entries.set(j, (key, data.to_owned()));
            assert(files.entries() =~= before.update(j as int, entry));
            assert forall|n: Seq<char>|
                #[trigger] files.text_of(n) == if n == id@ {
                    Some(data@)
                } else {
                    old(files).text_of(n)
                } by {
                lemma_cached_update(before, j as int, id@, data@, n);
            }
        },
        None => {
            files.entries.push((key, data.to_owned()));
            assert(files.entries() =~= before.push(entry));
            assert(files.entries().drop_last() =~= before);
        },
    }
}

/// A copy of the text stored under `id`, if any.
pub fn vfile_get(files: &VirtualFiles, id: &str) -> (r: Option<String>)
    ensures
        match r {
            Some(t) => files.text_of(id@) == Some(t@),
            None => files.text_of(id@) is None,
        },
{
    let key = id.to_owned();
    let mut found: Option<usize> = None;
    let mut i: usize = 0;
    while i < files.entries.len()
        invariant
            i <= files.entries.len(),
            key@ == id@,
            files.entries().len() == files.entries@.len(),
            match found {
                Some(j) => j < i && cached(files.entries().take(i as int), id@) == Some(
                    files.entries()[j as int].1,
                ),
                None => cached(files.entries().take(i as int), id@) is None,
            },
        decreases files.entries.len() - i,
    {
        assert(files.entries().take(i + 1).drop_last() =~= files.entries().take(i as int));
        if files.entries[i].0 == key {
            found = Some(i);
        }
        i = i + 1;
    }
    assert(files.entries().take(i as int) =~= files.entries());
    match found {
        Some(j) => Some(files.entries[j].1.clone()),
        None => None,
    }
}

} // verus!
