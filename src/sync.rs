//! The sync pipeline's decisions: which language files take part, and the
//! steps of a pull or a push, which the caller performs against the version
//! control system and the file system.
use vstd::prelude::*;
use crate::error::CirupError;
use crate::query::CanonicalQuery;
use crate::revision::{RevisionRange, RangeView, encoded_path, extracted, name_part, ext_of};
use crate::text::{chars_of, string_of};
use crate::utils::{sanitized, sanitize};

verus! {

/// A language file: its language code, its path, the name of the file
/// without a revision marker, and the revision range that the marker named.
pub struct LanguageFile {
    pub language: String,
    pub path: String,
    pub file_name: String,
    pub revision: RevisionRange,
}

impl LanguageFile {
    /// The language file at `path` for language `language`.  A path without
    /// an extension is no language file.
    pub fn load(path: &str, language: &str) -> (r: Result<LanguageFile, CirupError>)
        ensures
            match r {
                Ok(f) => {
                    &&& ext_of(name_part(path@)) is Some
                    &&& f.language@ == language@
                    &&& f.path@ == path@
                    &&& f.revision@ == extracted(path@).0
                    &&& f.file_name@ == name_part(extracted(path@).1)
                },
                Err(e) => ext_of(name_part(path@)) is None && e is Validation,
            },
    {
        match crate::file::extension_of(path) {
            None => {
                let mut m = String::new();
                m.append("invalid language file: ");
                m.append(path);
                Err(CirupError::Validation(m))
            },
            Some(_) => {
                let (revision, clean) = RevisionRange::extract_from_file_name(path);
                let file_name = file_name_of(clean.as_str());
                Ok(LanguageFile { language: language.to_owned(), path: path.to_owned(), file_name, revision })
            },
        }
    }
}

/// The last component of a path.
pub fn file_name_of(path: &str) -> (r: String)
    ensures
        r@ == name_part(path@),
{
    let cs = chars_of(path);
    let mut start: usize = 0;
    let mut i: usize = 0;
    while i < cs.len()
        invariant
            i <= cs.len(),
            start <= i,
            cs@ == path@,
            crate::revision::last_index(cs@.take(i as int), '/') + 1 == start,
        decreases cs.len() - i,
    {
        assert(cs@.take(i + 1).drop_last() =~= cs@.take(i as int));
        if cs[i] == '/' {
            start = i + 1;
        }
        i = i + 1;
    }
    assert(cs@.take(cs@.len() as int) =~= cs@);
    let mut out: Vec<char> = Vec::new();
    let mut j: usize = start;
    while j < cs.len()
        invariant
            start <= j <= cs.len(),
            out@ == cs@.subrange(start as int, j as int),
        decreases cs.len() - j,
    {
        out.push(cs[j]);
        j = j + 1;
        assert(out@ =~= cs@.subrange(start as int, j as int));
    }
    string_of(out.as_slice())
}

/// `dir` joined with `name` by one `/`.
pub open spec fn join_path(dir: Seq<char>, name: Seq<char>) -> Seq<char> {
    if dir.len() == 0 {
        name
    } else if dir.last() == '/' {
        dir + name
    } else {
        dir + seq!['/'] + name
    }
}

pub fn join(dir: &str, name: &str) -> (r: String)
    ensures
        r@ == join_path(dir@, name@),
{
    let cs = chars_of(dir);
    let mut out = dir.to_owned();
    if cs.len() > 0 && cs[cs.len() - 1] != '/' {
        out.append("/");
        proof {
            reveal_strlit("/");
        }
    }
    out.append(name);
    out
}

/// Whether language `code` takes part: it is the source language, or one
/// of the targets, where targets are named.
pub open spec fn takes_part(code: Seq<char>, source: Seq<char>, targets: Option<Seq<Seq<char>>>) -> bool {
    code == source || match targets {
        Some(t) => t.contains(code),
        None => true,
    }
}

pub open spec fn strings(v: Seq<String>) -> Seq<Seq<char>> {
    v.map_values(|s: String| s@)
}

/// The indices of the codes that take part, in order.
pub open spec fn selected(codes: Seq<Seq<char>>, source: Seq<char>, targets: Option<Seq<Seq<char>>>) -> Seq<int>
    decreases codes.len(),
{
    if codes.len() == 0 {
        seq![]
    } else if takes_part(codes.last(), source, targets) {
        selected(codes.drop_last(), source, targets).push(codes.len() - 1)
    } else {
        selected(codes.drop_last(), source, targets)
    }
}

pub open spec fn target_view(t: Option<Vec<String>>) -> Option<Seq<Seq<char>>> {
    match t {
        Some(v) => Some(strings(v@)),
        None => None,
    }
}

fn contains_string(v: &Vec<String>, s: &String) -> (r: bool)
    ensures
        r == strings(v@).contains(s@),
{
    let mut i: usize = 0;
    while i < v.len()
        invariant
            i <= v.len(),
            forall|j: int| 0 <= j < i ==> (#[trigger] v@[j])@ != s@,
        decreases v.len() - i,
    {
        if v[i] == *s {
            assert(strings(v@)[i as int] == s@);
            return true;
        }
        i = i + 1;
    }
    assert forall|j: int| 0 <= j < strings(v@).len() implies (#[trigger] strings(v@)[j]) != s@ by {
        assert(v@[j]@ != s@);
    }
    false
}

/// Of the language codes found, the indices of those that take part in a
/// sync, in order; an error where none was found or the source language is
/// not among them.
pub fn select_languages(codes: &Vec<String>, source_language: &str, target_languages: &Option<Vec<String>>) -> (r:
    Result<Vec<usize>, CirupError>)
    ensures
        match r {
            Ok(v) => {
                &&& v@.map_values(|i: usize| i as int) == selected(strings(codes@), source_language@, target_view(*target_languages))
                &&& strings(codes@).contains(source_language@)
            },
            Err(e) => e is Config && !strings(codes@).contains(source_language@),
        },
{
    let ghost cs = strings(codes@);
    let ghost tv = target_view(*target_languages);
    let source = source_language.to_owned();
    let mut out: Vec<usize> = Vec::new();
    let mut has_source = false;
    let mut i: usize = 0;
    while i < codes.len()
        invariant
            i <= codes.len(),
            cs == strings(codes@),
            tv == target_view(*target_languages),
            source@ == source_language@,
            out@.map_values(|k: usize| k as int) == selected(cs.take(i as int), source_language@, tv),
            has_source == exists|j: int| 0 <= j < i && (#[trigger] cs[j]) == source_language@,
        decreases codes.len() - i,
    {
        assert(cs.take(i + 1).drop_last() =~= cs.take(i as int));
        assert(cs.take(i + 1).last() == codes@[i as int]@);
        let is_source = codes[i] == source;
        let part = is_source || match target_languages {
            Some(t) => contains_string(t, &codes[i]),
            None => true,
        };
        if part {
            let ghost before = out@;
            out.push(i);
            assert(out@.map_values(|k: usize| k as int) =~= before.map_values(|k: usize| k as int).push(i as int));
        }
        if is_source {
            has_source = true;
            assert(cs[i as int] == source_language@);
        }
        i = i + 1;
    }
    assert(cs.take(codes.len() as int) =~= cs);
    assert(has_source == cs.contains(source_language@));
    if !has_source {
        let mut m = String::new();
        m.append("the source language has no file: ");
        m.append(source_language);
        return Err(CirupError::Config(m));
    }
    Ok(out)
}

/// A step of a pull or a push, for the caller to perform.
pub enum SyncStep {
    /// Write the content of `vcs_path` at `revision` (the checked-out one
    /// where absent) to `out_path`.
    Show { vcs_path: String, revision: Option<String>, out_path: String },
    /// Run `query` over the files `a` and `b`, as tables A and B, and write
    /// its resources to `out_path`.
    Query { query: CanonicalQuery, a: String, b: String, out_path: String },
}

/// The content of a step.
pub enum StepView {
    Show(Seq<char>, Option<Seq<char>>, Seq<char>),
    Query(CanonicalQuery, Seq<char>, Seq<char>, Seq<char>),
}

impl View for SyncStep {
    type V = StepView;

    open spec fn view(&self) -> StepView {
        match self {
            SyncStep::Show { vcs_path, revision, out_path } => StepView::Show(
                vcs_path@,
                crate::revision::opt_view(*revision),
                out_path@,
            ),
            SyncStep::Query { query, a, b, out_path } => StepView::Query(*query, a@, b@, out_path@),
        }
    }
}

pub open spec fn steps_view(v: Seq<SyncStep>) -> Seq<StepView> {
    v.map_values(|s: SyncStep| s@)
}

/// Where a sync reads and writes: the language files' directory in the
/// repository, the directory of the work files, and a scratch directory.
pub struct SyncDirs {
    pub source_dir: String,
    pub working_dir: String,
    pub temp_dir: String,
}

/// The range a sync works on: the old revision given, and the new one given
/// or else the current one.
pub open spec fn effective_range(old: Option<Seq<char>>, new: Option<Seq<char>>, current: Seq<char>) -> RangeView {
    (old, Some(match new {
        Some(n) => n,
        None => sanitize(current),
    }))
}

/// The steps that produce the reference source file at `out`: the source
/// at the new revision where no old one is given, else the `query` of the
/// source at the new revision against the source at the old one.
pub open spec fn source_steps(
    dirs: (Seq<char>, Seq<char>, Seq<char>),
    file: Seq<char>,
    range: RangeView,
    new: Option<Seq<char>>,
    out: Seq<char>,
    query: CanonicalQuery,
) -> Seq<StepView> {
    let vcs = join_path(dirs.0, file);
    match range.0 {
        None => seq![StepView::Show(vcs, None, out)],
        Some(o) => {
            let old_path = encoded_path((range.0, None), join_path(dirs.2, file));
            let new_path = encoded_path((None, range.1), join_path(dirs.2, file));
            seq![
                StepView::Show(vcs, Some(o), old_path),
                StepView::Show(vcs, new, new_path),
                StepView::Query(query, new_path, old_path, out),
            ]
        },
    }
}

/// The steps for each target language file of a pull: its content at the
/// new revision, queried against the source file into its work file.
pub open spec fn pull_target_steps(
    dirs: (Seq<char>, Seq<char>, Seq<char>),
    targets: Seq<Seq<char>>,
    range: RangeView,
    new: Option<Seq<char>>,
    source_out: Seq<char>,
) -> Seq<StepView>
    decreases targets.len(),
{
    if targets.len() == 0 {
        seq![]
    } else {
        let t = targets.last();
        let at_new = encoded_path((None, range.1), join_path(dirs.2, t));
        pull_target_steps(dirs, targets.drop_last(), range, new, source_out) + seq![
            StepView::Show(join_path(dirs.0, t), new, at_new),
            StepView::Query(
                if range.0 is None {
                    CanonicalQuery::Diff
                } else {
                    CanonicalQuery::PullLeftJoin
                },
                source_out,
                at_new,
                encoded_path(range, join_path(dirs.1, t)),
            ),
        ]
    }
}

pub open spec fn dirs_view(d: SyncDirs) -> (Seq<char>, Seq<char>, Seq<char>) {
    (d.source_dir@, d.working_dir@, d.temp_dir@)
}

fn opt_string(o: Option<&str>) -> (r: Option<String>)
    ensures
        crate::revision::opt_view(r) == match o {
            Some(s) => Some(s@),
            None => None,
        },
{
    match o {
        Some(s) => Some(s.to_owned()),
        None => None,
    }
}

fn push_step(out: &mut Vec<SyncStep>, step: SyncStep)
    ensures
        steps_view(final(out)@) == steps_view(old(out)@).push(step@),
{
    let ghost v = step@;
    out.push(step);
    assert(steps_view(out@) =~= steps_view(old(out)@).push(v));
}

/// Appends the steps that produce the reference source file at `out_path`.
fn add_source_steps(
    steps: &mut Vec<SyncStep>,
    dirs: &SyncDirs,
    file: &str,
    range: &RevisionRange,
    new: Option<&str>,
    out_path: &String,
    query: CanonicalQuery,
)
    ensures
        steps_view(final(steps)@) == steps_view(old(steps)@) + source_steps(
            dirs_view(*dirs),
            file@,
            range@,
            match new {
                Some(n) => Some(n@),
                None => None,
            },
            out_path@,
            query,
        ),
{
    let vcs = join(dirs.source_dir.as_str(), file);
    let ghost start = steps_view(steps@);
    match &range.old_rev {
        None => {
            push_step(steps, SyncStep::Show { vcs_path: vcs, revision: None, out_path: out_path.clone() });
            assert(steps_view(steps@) =~= start + source_steps(dirs_view(*dirs), file@, range@, match new {
                Some(n) => Some(n@),
                None => None,
            }, out_path@, query));
        },
        Some(o) => {
            let scratch = join(dirs.temp_dir.as_str(), file);
            let old_only = RevisionRange { old_rev: Some(o.clone()), new_rev: None };
            let new_only = RevisionRange { old_rev: None, new_rev: match &range.new_rev {
                Some(n) => Some(n.clone()),
                None => None,
            } };
            let old_path = old_only.append_to_file_name(scratch.as_str());
            let new_path = new_only.append_to_file_name(scratch.as_str());
            push_step(steps, SyncStep::Show { vcs_path: vcs.clone(), revision: Some(o.clone()), out_path: old_path.clone() });
            push_step(steps, SyncStep::Show { vcs_path: vcs, revision: opt_string(new), out_path: new_path.clone() });
            push_step(steps, SyncStep::Query { query, a: new_path, b: old_path, out_path: out_path.clone() });
            assert(steps_view(steps@) =~= start + source_steps(dirs_view(*dirs), file@, range@, match new {
                Some(n) => Some(n@),
                None => None,
            }, out_path@, query));
        },
    }
}

/// The range of a sync: the old revision given, and the new one given or
/// else the current one with its unsafe characters dropped.
pub fn sync_range(old: Option<&str>, new: Option<&str>, current: &str) -> (r: RevisionRange)
    ensures
        r@ == effective_range(
            match old {
                Some(o) => Some(o@),
                None => None,
            },
            match new {
                Some(n) => Some(n@),
                None => None,
            },
            current@,
        ),
{
    RevisionRange {
        old_rev: opt_string(old),
        new_rev: match new {
            Some(n) => Some(n.to_owned()),
            None => Some(sanitized(current)),
        },
    }
}

/// The steps of a pull: the source language file into the working
/// directory, marked with the range (the changes between the old and new
/// revisions where an old one is given, as `change` with `show_changes`,
/// else as `diff`); then for each target file, the source's keys that it
/// lacks (`diff`), or every source key with the target's text where an old
/// revision is given (the left join), into its work file.
pub fn pull_steps(
    dirs: &SyncDirs,
    source_file: &str,
    targets: &Vec<String>,
    old: Option<&str>,
    new: Option<&str>,
    current: &str,
    show_changes: bool,
) -> (r: Vec<SyncStep>)
    ensures
        ({
            let range = effective_range(
                match old {
                    Some(o) => Some(o@),
                    None => None,
                },
                match new {
                    Some(n) => Some(n@),
                    None => None,
                },
                current@,
            );
            let nv = match new {
                Some(n) => Some(n@),
                None => None,
            };
            let source_out = encoded_path(range, join_path(dirs.working_dir@, source_file@));
            steps_view(r@) == source_steps(
                dirs_view(*dirs),
                source_file@,
                range,
                nv,
                source_out,
                if show_changes {
                    CanonicalQuery::Change
                } else {
                    CanonicalQuery::Diff
                },
            ) + pull_target_steps(dirs_view(*dirs), strings(targets@), range, nv, source_out)
        }),
{
    let range = sync_range(old, new, current);
    let source_out = range.append_to_file_name(join(dirs.working_dir.as_str(), source_file).as_str());
    let mut steps: Vec<SyncStep> = Vec::new();
    assert(steps_view(steps@) =~= seq![]);
    let query = if show_changes { CanonicalQuery::Change } else { CanonicalQuery::Diff };
    add_source_steps(&mut steps, dirs, source_file, &range, new, &source_out, query);
    let ghost head = steps_view(steps@);
    let ghost nv = match new {
        Some(n) => Some(n@),
        None => None,
    };
    let new_only = RevisionRange { old_rev: None, new_rev: match &range.new_rev {
        Some(n) => Some(n.clone()),
        None => None,
    } };
    let mut i: usize = 0;
    assert(head + seq![] =~= head);
    assert(strings(targets@).take(0) =~= seq![]);
    while i < targets.len()
        invariant
            i <= targets.len(),
            new_only@ == (None::<Seq<char>>, range@.1),
            range@.0 is None <==> old.is_none(),
            nv == match new {
                Some(n) => Some(n@),
                None => None,
            },
            steps_view(steps@) == head + pull_target_steps(
                dirs_view(*dirs),
                strings(targets@).take(i as int),
                range@,
                nv,
                source_out@,
            ),
        decreases targets.len() - i,
    {
        let ghost ts = strings(targets@);
        assert(ts.take(i + 1).drop_last() =~= ts.take(i as int));
        assert(ts.take(i + 1).last() == targets@[i as int]@);
        let t = targets[i].as_str();
        let at_new = new_only.append_to_file_name(join(dirs.temp_dir.as_str(), t).as_str());
        let out_path = range.append_to_file_name(join(dirs.working_dir.as_str(), t).as_str());
        let q = if old.is_none() { CanonicalQuery::Diff } else { CanonicalQuery::PullLeftJoin };
        push_step(&mut steps, SyncStep::Show { vcs_path: join(dirs.source_dir.as_str(), t), revision: opt_string(new), out_path: at_new.clone() });
        push_step(&mut steps, SyncStep::Query { query: q, a: source_out.clone(), b: at_new, out_path });
        i = i + 1;
        assert(steps_view(steps@) =~= head + pull_target_steps(dirs_view(*dirs), ts.take(i as int), range@, nv, source_out@));
    }
    assert(strings(targets@).take(targets.len() as int) =~= strings(targets@));
    steps
}

/// The content of a language file: language, path, file name, range.
pub open spec fn file_view(f: LanguageFile) -> (Seq<char>, Seq<char>, Seq<char>, RangeView) {
    (f.language@, f.path@, f.file_name@, f.revision@)
}

pub open spec fn files_view(v: Seq<LanguageFile>) -> Seq<(Seq<char>, Seq<char>, Seq<char>, RangeView)> {
    v.map_values(|f: LanguageFile| file_view(f))
}

/// The path of the first repository file of language `code`.
pub open spec fn repository_path(repo: Seq<(Seq<char>, Seq<char>, Seq<char>, RangeView)>, code: Seq<char>) -> Option<Seq<char>>
    decreases repo.len(),
{
    if repo.len() == 0 {
        None
    } else if repo[0].0 == code {
        Some(repo[0].1)
    } else {
        repository_path(repo.drop_first(), code)
    }
}

/// The steps for each translation of a push: the translations that differ
/// from the reference source, merged into the repository's file of that language.
pub open spec fn push_translation_steps(
    temp_dir: Seq<char>,
    ts: Seq<(Seq<char>, Seq<char>, Seq<char>, RangeView)>,
    range: RangeView,
    source_language: Seq<char>,
    source_out: Seq<char>,
    repo: Seq<(Seq<char>, Seq<char>, Seq<char>, RangeView)>,
) -> Seq<StepView>
    decreases ts.len(),
{
    if ts.len() == 0 {
        seq![]
    } else {
        let prev = push_translation_steps(temp_dir, ts.drop_last(), range, source_language, source_out, repo);
        let t = ts.last();
        if t.3 != range || t.0 == source_language {
            prev
        } else {
            let changed = encoded_path(range, join_path(temp_dir, t.2));
            prev + seq![StepView::Query(CanonicalQuery::PushChangedValues, source_out, t.1, changed)]
                + match repository_path(repo, t.0) {
                Some(p) => seq![StepView::Query(CanonicalQuery::Merge, p, changed, p)],
                None => seq![],
            }
        }
    }
}

fn same_range(a: &RevisionRange, b: &RevisionRange) -> (r: bool)
    ensures
        r == (a@ == b@),
{
    let old_same = match (&a.old_rev, &b.old_rev) {
        (Some(x), Some(y)) => *x == *y,
        (None, None) => true,
        _ => false,
    };
    let new_same = match (&a.new_rev, &b.new_rev) {
        (Some(x), Some(y)) => *x == *y,
        (None, None) => true,
        _ => false,
    };
    old_same && new_same
}

fn find_repository_file(repo: &Vec<LanguageFile>, code: &String) -> (r: Option<usize>)
    ensures
        match r {
            Some(i) => i < repo@.len() && repository_path(files_view(repo@), code@) == Some(repo@[i as int].path@),
            None => repository_path(files_view(repo@), code@) is None,
        },
{
    let ghost fv = files_view(repo@);
    let mut i: usize = 0;
    assert(fv.skip(0) =~= fv);
    while i < repo.len()
        invariant
            i <= repo.len(),
            fv == files_view(repo@),
            repository_path(fv, code@) == repository_path(fv.skip(i as int), code@),
        decreases repo.len() - i,
    {
        assert(fv.skip(i as int)[0] == file_view(repo@[i as int]));
        assert(fv.skip(i as int).drop_first() =~= fv.skip(i + 1));
        if repo[i].language == *code {
            return Some(i);
        }
        i = i + 1;
    }
    None
}

/// The steps of a push: the reference source file (the source at the new
/// revision, or its changes since the old one), then for each translation
/// in the working directory marked with the range, other than the source
/// language, the keys whose text it changed, merged into the repository's
/// file of its language.  An error where no file carries the range's marker.
pub fn push_steps(
    dirs: &SyncDirs,
    source_file: &str,
    source_language: &str,
    translations: &Vec<LanguageFile>,
    repository: &Vec<LanguageFile>,
    old: Option<&str>,
    new: Option<&str>,
    current: &str,
) -> (r: Result<Vec<SyncStep>, CirupError>)
    ensures
        ({
            let range = effective_range(
                match old {
                    Some(o) => Some(o@),
                    None => None,
                },
                match new {
                    Some(n) => Some(n@),
                    None => None,
                },
                current@,
            );
            let nv = match new {
                Some(n) => Some(n@),
                None => None,
            };
            let source_out = encoded_path(range, join_path(dirs.temp_dir@, source_file@));
            let marked = exists|k: int| 0 <= k < translations@.len() && (#[trigger] translations@[k]).revision@ == range;
            match r {
                Ok(v) => marked && steps_view(v@) == source_steps(
                    dirs_view(*dirs),
                    source_file@,
                    range,
                    nv,
                    source_out,
                    CanonicalQuery::Change,
                ) + push_translation_steps(
                    dirs.temp_dir@,
                    files_view(translations@),
                    range,
                    source_language@,
                    source_out,
                    files_view(repository@),
                ),
                Err(e) => !marked && e is Config,
            }
        }),
{
    let range = sync_range(old, new, current);
    let mut marked = false;
    let mut k: usize = 0;
    while k < translations.len()
        invariant
            k <= translations.len(),
            marked == exists|j: int| 0 <= j < k && (#[trigger] translations@[j]).revision@ == range@,
        decreases translations.len() - k,
    {
        if same_range(&translations[k].revision, &range) {
            marked = true;
        }
        k = k + 1;
    }
    if !marked {
        return Err(CirupError::Config(String::from_str("the working directory holds no translation marked with the range")));
    }
    let source_out = range.append_to_file_name(join(dirs.temp_dir.as_str(), source_file).as_str());
    let mut steps: Vec<SyncStep> = Vec::new();
    assert(steps_view(steps@) =~= seq![]);
    add_source_steps(&mut steps, dirs, source_file, &range, new, &source_out, CanonicalQuery::Change);
    let ghost head = steps_view(steps@);
    let ghost tv = files_view(translations@);
    let ghost rv = files_view(repository@);
    let source = source_language.to_owned();
    let mut i: usize = 0;
    assert(head + seq![] =~= head);
    assert(tv.take(0) =~= seq![]);
    while i < translations.len()
        invariant
            i <= translations.len(),
            tv == files_view(translations@),
            rv == files_view(repository@),
            source@ == source_language@,
            steps_view(steps@) == head + push_translation_steps(
                dirs.temp_dir@,
                tv.take(i as int),
                range@,
                source_language@,
                source_out@,
                rv,
            ),
        decreases translations.len() - i,
    {
        assert(tv.take(i + 1).drop_last() =~= tv.take(i as int));
        assert(tv.take(i + 1).last() == file_view(translations@[i as int]));
        let ghost before = steps_view(steps@);
        let t = &translations[i];
        if same_range(&t.revision, &range) && !(t.language == source) {
            let changed = range.append_to_file_name(join(dirs.temp_dir.as_str(), t.file_name.as_str()).as_str());
            push_step(&mut steps, SyncStep::Query {
                query: CanonicalQuery::PushChangedValues,
                a: source_out.clone(),
                b: t.path.clone(),
                out_path: changed.clone(),
            });
            match find_repository_file(repository, &t.language) {
                Some(j) => {
                    let p = &repository[j].path;
                    push_step(&mut steps, SyncStep::Query {
                        query: CanonicalQuery::Merge,
                        a: p.clone(),
                        b: changed,
                        out_path: p.clone(),
                    });
                },
                None => {},
            }
        }
        i = i + 1;
        assert(steps_view(steps@) =~= head + push_translation_steps(dirs.temp_dir@, tv.take(i as int), range@, source_language@, source_out@, rv));
    }
    assert(tv.take(translations.len() as int) =~= tv);
    Ok(steps)
}

/// Whether `pattern` is a regular expression that `regex` compiles.
pub uninterp spec fn regex_valid(pattern: Seq<char>) -> bool;

/// Whether the compiled `pattern` matches somewhere in `text`.
pub uninterp spec fn regex_matches(pattern: Seq<char>, text: Seq<char>) -> bool;

/// The text of group `group` of the leftmost match of `pattern` in `text`,
/// where it matches and that group took part.
pub uninterp spec fn regex_group(pattern: Seq<char>, text: Seq<char>, group: nat) -> Option<Seq<char>>;

/// Relies on `regex::Regex::new`: whether the pattern compiles.
#[verifier::external_body]
fn regex_compiles(pattern: &str) -> (r: bool)
    ensures
        r == regex_valid(pattern@),
{
    regex::Regex::new(pattern).is_ok()
}

/// Relies on `regex::Regex::is_match`, on the pattern compiled by `Regex::new`.
#[verifier::external_body]
fn regex_is_match(pattern: &str, text: &str) -> (r: Option<bool>)
    ensures
        r is Some <==> regex_valid(pattern@),
        r is Some ==> r->0 == regex_matches(pattern@, text@),
{
    regex::Regex::new(pattern).ok().map(|re| re.is_match(text))
}

/// Relies on `regex::Regex::captures` and `Captures::get`, on the pattern
/// compiled by `Regex::new`.
#[verifier::external_body]
fn regex_capture(pattern: &str, text: &str, group: usize) -> (r: Option<Option<String>>)
    ensures
        r is Some <==> regex_valid(pattern@),
        r is Some ==> crate::revision::opt_view(r->0) == regex_group(pattern@, text@, group as nat),
{
    regex::Regex::new(pattern).ok().map(|re| re.captures(text).and_then(|c| c.get(group)).map(|m| m.as_str().to_string()))
}

/// The language code of a file name: the first group of the name pattern,
/// where both patterns are valid and the file pattern matches.
pub open spec fn language_code(file_pattern: Seq<char>, name_pattern: Seq<char>, file_name: Seq<char>) -> Option<Seq<char>> {
    if regex_valid(file_pattern) && regex_valid(name_pattern) && regex_matches(file_pattern, file_name) {
        regex_group(name_pattern, file_name, 1)
    } else {
        None
    }
}

/// The two patterns that find language files: one that a file name must
/// match, and one whose first group is the language code.
pub struct LanguageMatcher {
    pub file_pattern: String,
    pub name_pattern: String,
}

impl LanguageMatcher {
    /// The matcher of two patterns; an invalid one is a configuration error.
    pub fn new(match_language_file: &str, match_language_name: &str) -> (r: Result<LanguageMatcher, CirupError>)
        ensures
            r is Ok <==> regex_valid(match_language_file@) && regex_valid(match_language_name@),
            r is Ok ==> r->Ok_0.file_pattern@ == match_language_file@ && r->Ok_0.name_pattern@
                == match_language_name@,
            r is Err ==> r->Err_0 is Config,
    {
        if !regex_compiles(match_language_file) {
            let mut m = String::new();
            m.append("invalid pattern: ");
            m.append(match_language_file);
            return Err(CirupError::Config(m));
        }
        if !regex_compiles(match_language_name) {
            let mut m = String::new();
            m.append("invalid pattern: ");
            m.append(match_language_name);
            return Err(CirupError::Config(m));
        }
        Ok(LanguageMatcher { file_pattern: match_language_file.to_owned(), name_pattern: match_language_name.to_owned() })
    }

    /// The language code of a file name.
    pub fn language_of(&self, file_name: &str) -> (r: Option<String>)
        ensures
            crate::revision::opt_view(r) == language_code(self.file_pattern@, self.name_pattern@, file_name@),
    {
        match regex_is_match(self.file_pattern.as_str(), file_name) {
            Some(true) => {},
            _ => return None,
        }
        match regex_capture(self.name_pattern.as_str(), file_name, 1) {
            Some(code) => code,
            None => None,
        }
    }
}

/// The language file at `path`, where it has an extension and its name,
/// without a revision marker, carries a language code.
pub fn find_language_file(path: &str, matcher: &LanguageMatcher) -> (r: Option<LanguageFile>)
    ensures
        ({
            let code = language_code(
                matcher.file_pattern@,
                matcher.name_pattern@,
                name_part(extracted(path@).1),
            );
            &&& r is Some <==> (ext_of(name_part(path@)) is Some && code is Some)
            &&& r is Some ==> {
                &&& Some(r->0.language@) == code
                &&& r->0.path@ == path@
                &&& r->0.revision@ == extracted(path@).0
                &&& r->0.file_name@ == name_part(extracted(path@).1)
            }
        }),
{
    if crate::file::extension_of(path).is_none() {
        return None;
    }
    let (_, clean) = RevisionRange::extract_from_file_name(path);
    let name = file_name_of(clean.as_str());
    match matcher.language_of(name.as_str()) {
        Some(code) => match LanguageFile::load(path, code.as_str()) {
            Ok(f) => Some(f),
            Err(_) => None,
        },
        None => None,
    }
}

/// The language files of a directory: the path of the source language's,
/// and the paths of the others.
pub struct Job {
    pub source_language: String,
    pub languages: Vec<String>,
}

/// Of files with their language codes (none for a file that is no language
/// file), the path of the last whose code is `source`.
pub open spec fn job_source(files: Seq<(Seq<char>, Option<Seq<char>>)>, source: Seq<char>) -> Option<Seq<char>>
    decreases files.len(),
{
    if files.len() == 0 {
        None
    } else if files.last().1 == Some(source) {
        Some(files.last().0)
    } else {
        job_source(files.drop_last(), source)
    }
}

/// The paths of the language files whose code is not `source`, in order.
pub open spec fn job_languages(files: Seq<(Seq<char>, Option<Seq<char>>)>, source: Seq<char>) -> Seq<Seq<char>>
    decreases files.len(),
{
    if files.len() == 0 {
        seq![]
    } else if files.last().1 is Some && files.last().1 != Some(source) {
        job_languages(files.drop_last(), source).push(files.last().0)
    } else {
        job_languages(files.drop_last(), source)
    }
}

pub open spec fn coded_files(v: Seq<(String, Option<String>)>) -> Seq<(Seq<char>, Option<Seq<char>>)> {
    v.map_values(|e: (String, Option<String>)| (e.0@, crate::revision::opt_view(e.1)))
}

impl Job {
    /// Sorts the files found into the source language's and the others';
    /// an error where none is the source language's.
    pub fn new(files: &Vec<(String, Option<String>)>, source_language: &str) -> (r: Result<Job, CirupError>)
        ensures
            match r {
                Ok(j) => job_source(coded_files(files@), source_language@) == Some(j.source_language@)
                    && strings(j.languages@) == job_languages(coded_files(files@), source_language@),
                Err(e) => job_source(coded_files(files@), source_language@) is None && e is Config,
            },
    {
        let ghost fs = coded_files(files@);
        let source = source_language.to_owned();
        let mut found: Option<String> = None;
        let mut languages: Vec<String> = Vec::new();
        let mut i: usize = 0;
        assert(strings(languages@) =~= seq![]);
        while i < files.len()
            invariant
                i <= files.len(),
                fs == coded_files(files@),
                source@ == source_language@,
                crate::revision::opt_view(found) == job_source(fs.take(i as int), source_language@),
                strings(languages@) == job_languages(fs.take(i as int), source_language@),
            decreases files.len() - i,
        {
            assert(fs.take(i + 1).drop_last() =~= fs.take(i as int));
            assert(fs.take(i + 1).last() == fs[i as int]);
            match &files[i].1 {
                Some(code) => {
                    if *code == source {
                        found = Some(files[i].0.clone());
                    } else {
                        let ghost before = languages@;
                        languages.push(files[i].0.clone());
                        assert(strings(languages@) =~= strings(before).push(files@[i as int].0@));
                    }
                },
                None => {},
            }
            i = i + 1;
        }
        assert(fs.take(files.len() as int) =~= fs);
        match found {
            Some(path) => Ok(Job { source_language: path, languages }),
            None => Err(CirupError::Config(String::from_str("no file of the source language was found"))),
        }
    }
}

} // verus!
