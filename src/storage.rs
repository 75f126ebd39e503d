use vstd::prelude::*;

verus! {

/// No saved state exists and the type has no default to start from.
#[derive(Debug, Clone, Copy, PartialEq, Eq, Structural)]
pub struct MissingState;

/// A starting value for state that was never saved: the type's default
/// where it has one, `MissingState` otherwise.
pub trait TryDefault: Sized {
    fn try_default() -> (r: Result<Self, MissingState>)
        default_ensures
            r == Err::<Self, MissingState>(MissingState),
    {
        Err(MissingState)
    }
}

impl<T: Default> TryDefault for T {
    fn try_default() -> (res: Result<T, MissingState>)
        ensures
            res is Ok,
    {
        Ok(<T as core::default::Default>::default())
    }
}

/// Data shared by every command handler.
pub struct Data {}

/// The path that `Path::join` gives for `dir` joined with `key`.
pub uninterp spec fn joined_path(dir: Seq<char>, key: Seq<char>) -> Seq<char>;

/// The path that `Path::with_extension` gives for `path` with extension `ext`.
pub uninterp spec fn path_with_extension(path: Seq<char>, ext: Seq<char>) -> Seq<char>;

/// Relies on `Path::join`: the joined path depends on the two parts alone.
#[verifier::external_body]
fn join_path(dir: &str, key: &str) -> (r: String)
    ensures
        r@ == joined_path(dir@, key@),
{
    std::path::Path::new(dir).join(key).to_string_lossy().into_owned()
}

/// Relies on `Path::with_extension`: the result depends on the path and
/// the extension alone. It panics on an extension that holds a path
/// separator, which `requires` leaves out.
#[verifier::external_body]
fn set_extension(path: &str, ext: &str) -> (r: String)
    requires
        forall|i: int| 0 <= i < ext@.len() ==> (#[trigger] ext@[i]) != '/' && ext@[i] != '\\',
    ensures
        r@ == path_with_extension(path@, ext@),
{
    std::path::Path::new(path).with_extension(ext).to_string_lossy().into_owned()
}

/// A storage engine that keeps each piece of state in a JSON file of one
/// directory.
pub struct LocalEngine {
    storage_dir: String,
}

impl LocalEngine {
    pub closed spec fn dir(&self) -> Seq<char> {
        self.storage_dir@
    }

    pub fn new(path: String) -> (r: LocalEngine)
        ensures
            r.dir() == path@,
    {
        LocalEngine { storage_dir: path }
    }

    /// The file that holds the state saved under `storage_key`.
    pub fn resolve_filepath(&self, storage_key: &str) -> (r: String)
        ensures
            r@ == path_with_extension(joined_path(self.dir(), storage_key@), ".json"@),
    {
        let joined = join_path(self.storage_dir.as_str(), storage_key);
        proof {
            reveal_strlit(".json");
        }
        set_extension(joined.as_str(), ".json")
    }
}

/// The storage engines that state is saved to.
pub struct Storage {
    local: Option<LocalEngine>,
}

impl Storage {
    pub fn new(local: Option<LocalEngine>) -> (r: Storage)
        ensures
            r.local() == local,
    {
        Storage { local }
    }

    pub closed spec fn local(&self) -> Option<LocalEngine> {
        self.local
    }

    pub fn local_engine(&self) -> (r: &Option<LocalEngine>)
        ensures
            *r == self.local(),
    {
        &self.local
    }
}

} // verus!
