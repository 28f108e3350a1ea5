//! Which query backend a configuration selects, and the settings it reads.
use vstd::prelude::*;
use crate::error::CirupError;
use crate::query::same_text;
use crate::text::{chars_of, string_of, is_white_space, white_space, to_lower_ascii, lower_ascii};

verus! {

/// The query backends: an embedded SQL engine, a local in-process engine,
/// and a remote service.
#[derive(PartialEq, Eq, Structural, Clone, Copy, Debug)]
pub enum QueryBackendKind {
    Rusqlite,
    TursoLocal,
    TursoRemote,
}

/// `s` without leading white space.
pub open spec fn trim_start(s: Seq<char>) -> Seq<char>
    decreases s.len(),
{
    if s.len() > 0 && white_space(s[0]) {
        trim_start(s.drop_first())
    } else {
        s
    }
}

/// `s` without trailing white space.
pub open spec fn trim_end(s: Seq<char>) -> Seq<char>
    decreases s.len(),
{
    if s.len() > 0 && white_space(s.last()) {
        trim_end(s.drop_last())
    } else {
        s
    }
}

/// The backend that a tag names, after trimming white space and lowering
/// ASCII capitals, with its aliases.
pub open spec fn backend_of(tag: Seq<char>) -> Option<QueryBackendKind> {
    let t = trim_end(trim_start(tag)).map_values(|c: char| lower_ascii(c));
    if t == "embedded"@ || t == "rusqlite"@ {
        Some(QueryBackendKind::Rusqlite)
    } else if t == "local-managed"@ || t == "turso-local"@ || t == "turso_local"@ || t == "turso"@ {
        Some(QueryBackendKind::TursoLocal)
    } else if t == "remote-managed"@ || t == "turso-remote"@ || t == "turso_remote"@ || t
        == "libsql-remote"@ || t == "libsql_remote"@ {
        Some(QueryBackendKind::TursoRemote)
    } else {
        None
    }
}

fn normalised_tag(tag: &str) -> (r: String)
    ensures
        r@ == trim_end(trim_start(tag@)).map_values(|c: char| lower_ascii(c)),
{
    let cs = chars_of(tag);
    let mut from: usize = 0;
    assert(cs@.subrange(0, cs@.len() as int) =~= cs@);
    while from < cs.len() && is_white_space(cs[from])
        invariant
            from <= cs.len(),
            cs@ == tag@,
            trim_start(tag@) == trim_start(cs@.subrange(from as int, cs@.len() as int)),
        decreases cs.len() - from,
    {
        assert(cs@.subrange(from as int, cs@.len() as int).drop_first() =~= cs@.subrange(from + 1, cs@.len() as int));
        from = from + 1;
    }
    let ghost start = cs@.subrange(from as int, cs@.len() as int);
    let mut to: usize = cs.len();
    assert(cs@.subrange(from as int, to as int) =~= start);
    while to > from && is_white_space(cs[to - 1])
        invariant
            from <= to <= cs.len(),
            trim_end(start) == trim_end(cs@.subrange(from as int, to as int)),
        decreases to - from,
    {
        assert(cs@.subrange(from as int, to as int).drop_last() =~= cs@.subrange(from as int, to - 1));
        to = to - 1;
    }
    let ghost t = cs@.subrange(from as int, to as int);
    assert(trim_end(t) == t);
    let mut out: Vec<char> = Vec::new();
    let mut i: usize = from;
    while i < to
        invariant
            from <= i <= to <= cs.len(),
            out@ == cs@.subrange(from as int, i as int).map_values(|c: char| lower_ascii(c)),
        decreases to - i,
    {
        out.push(to_lower_ascii(cs[i]));
        i = i + 1;
        assert(out@ =~= cs@.subrange(from as int, i as int).map_values(|c: char| lower_ascii(c)));
    }
    string_of(out.as_slice())
}

/// The backend that `tag` names, if any.
pub fn parse_backend_kind(tag: &str) -> (r: Option<QueryBackendKind>)
    ensures
        r == backend_of(tag@),
{
    let t = normalised_tag(tag);
    let t = t.as_str();
    if same_text(t, "embedded") || same_text(t, "rusqlite") {
        Some(QueryBackendKind::Rusqlite)
    } else if same_text(t, "local-managed") || same_text(t, "turso-local") || same_text(t, "turso_local")
        || same_text(t, "turso") {
        Some(QueryBackendKind::TursoLocal)
    } else if same_text(t, "remote-managed") || same_text(t, "turso-remote") || same_text(t, "turso_remote")
        || same_text(t, "libsql-remote") || same_text(t, "libsql_remote") {
        Some(QueryBackendKind::TursoRemote)
    } else {
        None
    }
}

/// The backend that the configuration's tag names, else that of the
/// environment's, else the embedded one; an unknown tag is a configuration error.
pub fn select_backend(config_tag: Option<&str>, env_tag: Option<&str>) -> (r: Result<QueryBackendKind, CirupError>)
    ensures
        match (config_tag, env_tag) {
            (Some(t), _) => match backend_of(t@) {
                Some(k) => r == Ok::<QueryBackendKind, CirupError>(k),
                None => r is Err && r->Err_0 is Config,
            },
            (None, Some(t)) => match backend_of(t@) {
                Some(k) => r == Ok::<QueryBackendKind, CirupError>(k),
                None => r is Err && r->Err_0 is Config,
            },
            (None, None) => r == Ok::<QueryBackendKind, CirupError>(QueryBackendKind::Rusqlite),
        },
{
    let tag = match config_tag {
        Some(t) => t,
        None => match env_tag {
            Some(t) => t,
            None => return Ok(QueryBackendKind::Rusqlite),
        },
    };
    match parse_backend_kind(tag) {
        Some(k) => Ok(k),
        None => {
            let mut m = String::new();
            m.append("unknown query backend: ");
            m.append(tag);
            Err(CirupError::Config(m))
        },
    }
}

/// The first value present among the configuration's and then the
/// environment's, in order.
pub open spec fn first_present(config_value: Option<Seq<char>>, env: Seq<Option<Seq<char>>>) -> Option<Seq<char>>
    decreases env.len(),
{
    match config_value {
        Some(v) => Some(v),
        None => if env.len() == 0 {
            None
        } else {
            first_present(env[0], env.drop_first())
        },
    }
}

pub open spec fn opt_chars(o: Option<String>) -> Option<Seq<char>> {
    match o {
        Some(s) => Some(s@),
        None => None,
    }
}

/// The remote URL: the configured one, else the first of the environment's
/// variables (in the order `CIRUP_TURSO_URL`, `LIBSQL_URL`, `LIBSQL_HRANA_URL`) that is set.
pub fn remote_url_from_config(config_url: Option<String>, env: Vec<Option<String>>) -> (r: Option<String>)
    ensures
        opt_chars(r) == first_present(opt_chars(config_url), env@.map_values(|o: Option<String>| opt_chars(o))),
{
    let ghost es = env@.map_values(|o: Option<String>| opt_chars(o));
    if config_url.is_some() {
        return config_url;
    }
    let mut i: usize = 0;
    assert(es.skip(0) =~= es);
    while i < env.len()
        invariant
            i <= env.len(),
            es == env@.map_values(|o: Option<String>| opt_chars(o)),
            config_url.is_none(),
            first_present(None, es) == first_present(None, es.skip(i as int)),
        decreases env.len() - i,
    {
        assert(es.skip(i as int)[0] == opt_chars(env@[i as int]));
        assert(es.skip(i as int).drop_first() =~= es.skip(i + 1));
        match &env[i] {
            Some(v) => {
                let r = v.clone();
                assert(es.skip(i as int)[0] == Some(r@));
                assert(es.skip(i as int).len() > 0);
                assert(first_present(Some(r@), es.skip(i as int).drop_first()) == Some(r@));
                assert(first_present(None, es.skip(i as int)) == Some(r@));
                return Some(r);
            },
            None => {},
        }
        i = i + 1;
    }
    None
}

/// The remote credential: the configured one, else the first of the
/// environment's variables (`CIRUP_TURSO_AUTH_TOKEN`, `LIBSQL_AUTH_TOKEN`,
/// `TURSO_AUTH_TOKEN`) that is set, else empty.
pub fn remote_auth_token_from_config(config_token: Option<String>, env: Vec<Option<String>>) -> (r: String)
    ensures
        r@ == match first_present(opt_chars(config_token), env@.map_values(|o: Option<String>| opt_chars(o))) {
            Some(t) => t,
            None => seq![],
        },
{
    match remote_url_from_config(config_token, env) {
        Some(t) => t,
        None => String::new(),
    }
}

/// The backend that is built for `kind`: a remote one needs a URL, and
/// without it the embedded one stands in.
pub fn build_backend(kind: QueryBackendKind, remote_url: &Option<String>) -> (r: QueryBackendKind)
    ensures
        r == if kind == QueryBackendKind::TursoRemote && remote_url.is_none() {
            QueryBackendKind::Rusqlite
        } else {
            kind
        },
{
    match kind {
        QueryBackendKind::TursoRemote => if remote_url.is_some() {
            QueryBackendKind::TursoRemote
        } else {
            QueryBackendKind::Rusqlite
        },
        k => k,
    }
}

} // verus!
