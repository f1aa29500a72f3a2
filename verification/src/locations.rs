//! Where the document tree and the metadata store live.

use crate::catalog::CatalogView;
use crate::error::{CoreError, ErrorKind};
use crate::events::{Applied, EventView, FsOp, FsOpView};
use crate::model::{EnvInfo, EnvOverrides};
use crate::paths::{abs_chars, abs_of, parent_chars, parent_of};
use crate::service::{refuse, OpenContext};
use crate::text::{chars_of, string_of};
use vstd::prelude::*;

verus! {

/// What the surroundings of the process say about locations: three
/// variables of the environment and the home directory of the user.
#[derive(Debug, Default)]
pub struct Surroundings {
    /// `OPENCONTEXT_ROOT`
    pub root_var: Option<String>,
    /// `OPENCONTEXT_CONTEXTS_ROOT`
    pub contexts_root_var: Option<String>,
    /// `OPENCONTEXT_DB_PATH`
    pub db_path_var: Option<String>,
    pub home_dir: Option<String>,
}

/// The view of an optional text.
pub open spec fn opt_view(text: Option<String>) -> Option<Seq<char>> {
    match text {
        Some(t) => Some(t@),
        None => None,
    }
}

/// The first of two optional values that is present.
pub open spec fn or_else<T>(first: Option<T>, second: Option<T>) -> Option<T> {
    match first {
        Some(_) => first,
        None => second,
    }
}

/// The base directory: the override, else the variable, else
/// `.opencontext` in the home directory.
pub open spec fn base_root_of(overrides: EnvOverrides, around: Surroundings) -> Option<Seq<char>> {
    or_else(
        opt_view(overrides.base_root),
        or_else(
            opt_view(around.root_var),
            match around.home_dir {
                Some(home) => Some(abs_of(home@, ".opencontext"@)),
                None => None,
            },
        ),
    )
}

/// The directory of the document tree: the override, else the variable,
/// else `contexts` in the base directory.
pub open spec fn contexts_root_of(
    overrides: EnvOverrides,
    around: Surroundings,
    base: Seq<char>,
) -> Seq<char> {
    match or_else(opt_view(overrides.contexts_root), opt_view(around.contexts_root_var)) {
        Some(p) => p,
        None => abs_of(base, "contexts"@),
    }
}

/// The file of the metadata store: the override, else the variable, else
/// `opencontext.db` in the base directory.
pub open spec fn db_path_of(overrides: EnvOverrides, around: Surroundings, base: Seq<char>) -> Seq<
    char,
> {
    match or_else(opt_view(overrides.db_path), opt_view(around.db_path_var)) {
        Some(p) => p,
        None => abs_of(base, "opencontext.db"@),
    }
}

/// The directories that have to be there before the catalog is used.
pub open spec fn startup_dirs(contexts_root: Seq<char>, db_path: Seq<char>) -> Seq<FsOpView> {
    match parent_of(db_path) {
        Some(dir) => seq![
            FsOpView::CreateDirAll { path: contexts_root },
            FsOpView::CreateDirAll { path: dir },
        ],
        None => seq![FsOpView::CreateDirAll { path: contexts_root }],
    }
}

/// `name` inside the directory `dir`.
fn inside(dir: &str, name: &str) -> (r: String)
    ensures
        r@ == abs_of(dir@, name@),
{
    string_of(&abs_chars(&chars_of(dir), &chars_of(name)))
}

/// Resolves the locations. Only a missing base directory is refused.
pub fn resolve_env(overrides: &EnvOverrides, around: &Surroundings) -> (r: Result<
    EnvInfo,
    CoreError,
>)
    ensures
        match r {
            Ok(info) => {
                &&& base_root_of(*overrides, *around) matches Some(base)
                &&& info.contexts_root@ == contexts_root_of(*overrides, *around, base)
                &&& info.db_path@ == db_path_of(*overrides, *around, base)
            },
            Err(e) => {
                &&& base_root_of(*overrides, *around) is None
                &&& e.is(ErrorKind::InvalidInput, "Unable to resolve user home directory"@)
            },
        },
{
    let base: String = match &overrides.base_root {
        Some(b) => b.clone(),
        None => match &around.root_var {
            Some(b) => b.clone(),
            None => match &around.home_dir {
                Some(home) => inside(home.as_str(), ".opencontext"),
                None => {
                    return Err(
                        refuse(
                            ErrorKind::InvalidInput,
                            "Unable to resolve user home directory".to_owned(),
                        ),
                    );
                },
            },
        },
    };
    let contexts_root = match &overrides.contexts_root {
        Some(p) => p.clone(),
        None => match &around.contexts_root_var {
            Some(p) => p.clone(),
            None => inside(base.as_str(), "contexts"),
        },
    };
    let db_path = match &overrides.db_path {
        Some(p) => p.clone(),
        None => match &around.db_path_var {
            Some(p) => p.clone(),
            None => inside(base.as_str(), "opencontext.db"),
        },
    };
    Ok(EnvInfo { contexts_root, db_path })
}

impl OpenContext {
    /// Resolves the locations and opens an empty catalog for them. The
    /// directory of the document tree and the directory of the store
    /// file are to be created before anything else happens.
    pub fn initialize(overrides: EnvOverrides, around: &Surroundings) -> (r: Result<
        Applied<OpenContext>,
        CoreError,
    >)
        ensures
            match r {
                Ok(a) => {
                    &&& base_root_of(overrides, *around) matches Some(base)
                    &&& a.value@ == CatalogView::empty(contexts_root_of(overrides, *around, base))
                    &&& a.value@.wf()
                    &&& a.value.store_path() == db_path_of(overrides, *around, base)
                    &&& a.before() == startup_dirs(
                        contexts_root_of(overrides, *around, base),
                        db_path_of(overrides, *around, base),
                    )
                    &&& a.after() == Seq::<FsOpView>::empty()
                    &&& a.published() == Seq::<EventView>::empty()
                },
                Err(e) => {
                    &&& base_root_of(overrides, *around) is None
                    &&& e.is(ErrorKind::InvalidInput, "Unable to resolve user home directory"@)
                },
            },
    {
        let info = match resolve_env(&overrides, around) {
            Ok(info) => info,
            Err(e) => {
                return Err(e);
            },
        };
        let mut before_commit: Vec<FsOp> = Vec::new();
        before_commit.push(FsOp::CreateDirAll { path: info.contexts_root.clone() });
        match parent_chars(&chars_of(info.db_path.as_str())) {
            Some(dir) => {
                before_commit.push(FsOp::CreateDirAll { path: string_of(&dir) });
            },
            None => {},
        }
        let ghost root = info.contexts_root@;
        let ghost db = info.db_path@;
        let out = Applied {
            value: OpenContext::open(info),
            before_commit,
            after_commit: Vec::new(),
            events: Vec::new(),
        };
        assert(out.before() =~= startup_dirs(root, db));
        assert(out.after() =~= Seq::<FsOpView>::empty());
        assert(out.published() =~= Seq::<EventView>::empty());
        Ok(out)
    }
}

} // verus!
