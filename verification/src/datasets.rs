//! Datasets: which names are known, and where a dataset's file is found.

use crate::client::Status;
use crate::text::{chars_of, join_texts, same_text};
use vstd::prelude::*;
use vstd::string::*;

verus! {

/// The named ann-benchmarks datasets.
pub open spec fn known_names() -> Seq<Seq<char>> {
    seq![
        "deep-image-96-angular"@,
        "fashion-mnist-784-euclidean"@,
        "gist-960-euclidean"@,
        "glove-25-angular"@,
        "glove-50-angular"@,
        "glove-100-angular"@,
        "glove-200-angular"@,
        "lastfm-64-dot"@,
        "mnist-784-euclidean"@,
        "nytimes-16-angular"@,
        "nytimes-256-angular"@,
        "sift-128-euclidean"@,
    ]
}

/// The named ann-benchmarks datasets.
pub fn known_datasets() -> (res: Vec<String>)
    ensures
        crate::text::texts(res@) == known_names(),
{
    let res = vec![
        "deep-image-96-angular".to_owned(),
        "fashion-mnist-784-euclidean".to_owned(),
        "gist-960-euclidean".to_owned(),
        "glove-25-angular".to_owned(),
        "glove-50-angular".to_owned(),
        "glove-100-angular".to_owned(),
        "glove-200-angular".to_owned(),
        "lastfm-64-dot".to_owned(),
        "mnist-784-euclidean".to_owned(),
        "nytimes-16-angular".to_owned(),
        "nytimes-256-angular".to_owned(),
        "sift-128-euclidean".to_owned(),
    ];
    assert(crate::text::texts(res@) =~= known_names());
    res
}

/// Whether `name` is one of the named datasets.
pub fn is_known(name: &str) -> (res: bool)
    ensures
        res == known_names().contains(name@),
{
    let list = known_datasets();
    for i in 0..list.len()
        invariant
            crate::text::texts(list@) == known_names(),
            forall|k: int| 0 <= k < i ==> (#[trigger] list@[k])@ != name@,
    {
        if same_text(list[i].as_str(), name) {
            assert(known_names()[i as int] == name@);
            return true;
        }
    }
    assert forall|k: int| 0 <= k < known_names().len() implies known_names()[k] != name@ by {
        assert(list@[k]@ == known_names()[k]);
    }
    false
}

// ---------------------------------------------------------------------------
// Paths
// ---------------------------------------------------------------------------

/// The text holds none of the characters that separate the parts of a path on some platform.
pub open spec fn is_plain(arg: Seq<char>) -> bool {
    forall|i: int|
        0 <= i < arg.len() ==> (#[trigger] arg[i]) != '/' && arg[i] != '\\' && arg[i] != ':'
}

/// The text holds the character.
pub open spec fn holds(arg: Seq<char>, c: char) -> bool {
    exists|i: int| 0 <= i < arg.len() && (#[trigger] arg[i]) == c
}

/// The text of a file name ends in a point and `extension`, behind a non-empty stem.
pub open spec fn has_extension(arg: Seq<char>, extension: Seq<char>) -> bool {
    crate::text::ends_in(arg, "."@ + extension) && arg.len() > extension.len() + 1
}

/// The character that separates the parts of a path on this platform:
/// `std::path::MAIN_SEPARATOR`, which is `/` or `\`. Which of them it is depends on the machine
/// and is not stated.
#[verifier::external_body]
fn main_separator() -> (res: char)
    ensures
        res == '/' || res == '\\',
{
    std::path::MAIN_SEPARATOR
}

/// Calls `std::path::Path::is_absolute`. A path without a separator has no root, so it is not
/// absolute on any platform. What is absolute beyond that depends on the machine and is not
/// stated.
#[verifier::external_body]
fn path_is_absolute(arg: &str) -> (res: bool)
    ensures
        is_plain(arg@) ==> !res,
{
    std::path::Path::new(arg).is_absolute()
}

/// Calls `std::path::Path::extension`: what stands behind the last point of the file name, where
/// something stands before it. A text without a separator is itself the file name. Where the
/// file name of another path starts depends on the machine and is not stated.
#[verifier::external_body]
fn path_extension(arg: &str) -> (res: Option<String>)
    ensures
        is_plain(arg@) ==> forall|e: Seq<char>|
            e.len() > 0 && !holds(e, '.') ==> (crate::json::opt_text(res) == Some(e)
                <==> #[trigger] has_extension(arg@, e)),
{
    std::path::Path::new(arg).extension().and_then(|e| e.to_str()).map(str::to_owned)
}

/// `out` is `leaf` in the directory `dir`: behind it, with at most one separator between.
pub open spec fn is_under(dir: Seq<char>, leaf: Seq<char>, out: Seq<char>) -> bool {
    out == dir + leaf || exists|separator: char| out == #[trigger] dir.push(separator) + leaf
}

/// Calls `std::path::Path::join`. A name without a separator goes behind the directory, with the
/// platform's separator between where one is needed; which it is, and where it is needed,
/// depends on the machine and is not stated. Of a directory with a backslash, which may be one
/// of the Windows forms in which more changes, nothing is stated.
#[verifier::external_body]
fn join_path(dir: &str, leaf: &str) -> (res: String)
    ensures
        is_plain(leaf@) && leaf@.len() > 0 && !holds(dir@, '\\') ==> is_under(dir@, leaf@, res@),
{
    std::path::Path::new(dir).join(leaf).display().to_string()
}

/// A path is absolute, has a separator or an HDF5 extension; named datasets are bare slugs.
pub open spec fn is_path_like(
    arg: Seq<char>,
    absolute: bool,
    separator: char,
    extension: Option<Seq<char>>,
) -> bool {
    absolute || holds(arg, separator) || extension == Some("h5"@) || extension == Some("hdf5"@)
}

/// Whether `arg` is a path to a file rather than the name of a dataset, with what the platform
/// says of it: whether it is absolute, the separator, and its extension.
pub fn path_like(arg: &str, absolute: bool, separator: char, extension: Option<&str>) -> (res: bool)
    ensures
        res == is_path_like(arg@, absolute, separator, crate::json::opt_str(extension)),
{
    if absolute {
        return true;
    }
    let chars = chars_of(arg);
    for i in 0..chars.len()
        invariant
            chars@ == arg@,
            forall|k: int| 0 <= k < i ==> (#[trigger] arg@[k]) != separator,
    {
        if chars[i] == separator {
            assert(arg@[i as int] == separator);
            return true;
        }
    }
    match extension {
        Some(e) => same_text(e, "h5") || same_text(e, "hdf5"),
        None => false,
    }
}

/// The text ends in an HDF5 extension.
pub open spec fn has_hdf5_extension(arg: Seq<char>) -> bool {
    has_extension(arg, "h5"@) || has_extension(arg, "hdf5"@)
}

/// Whether `arg` is a path to a file rather than the name of a dataset. A text without a
/// separator is one where it has an HDF5 extension, on every platform; what else is a path
/// depends on the platform's rules for paths, which `path_like` takes as arguments.
pub fn looks_like_path(arg: &str) -> (res: bool)
    ensures
        is_plain(arg@) ==> res == has_hdf5_extension(arg@),
        holds(arg@, '/') && holds(arg@, '\\') ==> res,
{
    let absolute = path_is_absolute(arg);
    let separator = main_separator();
    let extension = path_extension(arg);
    proof {
        reveal_strlit("h5");
        reveal_strlit("hdf5");
        assert(!holds("h5"@, '.'));
        assert(!holds("hdf5"@, '.'));
        assert(is_plain(arg@) ==> (crate::json::opt_text(extension) == Some("h5"@)
            <==> has_extension(arg@, "h5"@)));
        assert(is_plain(arg@) ==> (crate::json::opt_text(extension) == Some("hdf5"@)
            <==> has_extension(arg@, "hdf5"@)));
    }
    match &extension {
        Some(e) => path_like(arg, absolute, separator, Some(e.as_str())),
        None => path_like(arg, absolute, separator, None),
    }
}

/// The directory in which downloaded datasets are kept.
pub fn dataset_cache_dir(home: &str) -> (res: String)
    ensures
        !holds(home@, '\\') ==> is_under(home@, "dataset-embeddings"@, res@),
{
    proof {
        reveal_strlit("dataset-embeddings");
    }
    join_path(home, "dataset-embeddings")
}

// ---------------------------------------------------------------------------
// Finding a dataset
// ---------------------------------------------------------------------------

/// A named dataset, kept in the cache and downloaded where it is missing there.
pub struct CachedDataset {
    /// The cache directory.
    pub dir: String,
    /// The file in the cache.
    pub path: String,
    /// The file that a download is written to before it is moved to `path`.
    pub partial: String,
    /// Where the file is downloaded from.
    pub url: String,
}

/// How the file of a dataset is found.
pub enum DatasetPlan {
    /// A local file, used where it exists.
    File { path: String },
    /// A named dataset.
    Cached(CachedDataset),
}

/// Why there is no file for a dataset.
pub enum DatasetError {
    /// The local file does not exist.
    FileMissing { name: String },
    /// The name is neither a path nor one of the known datasets.
    Unknown { name: String },
    /// The home directory, which holds the cache, is not known.
    NoHome,
}

/// What the user is told.
pub open spec fn dataset_message(e: DatasetError) -> Seq<char> {
    match e {
        DatasetError::FileMissing { name } => "HDF5 file '"@ + name@ + "' not found"@,
        DatasetError::Unknown { name } => "Unknown ann-benchmarks dataset '"@ + name@
            + "'. Pass a path to a local HDF5 file, or one of the known datasets:\n  "@
            + crate::text::joined(known_names(), "\n  "@),
        DatasetError::NoHome => "HOME env var not set"@,
    }
}

impl DatasetError {
    /// What the user is told.
    pub fn message(&self) -> (res: String)
        ensures
            res@ == dataset_message(*self),
    {
        match self {
            DatasetError::FileMissing { name } => {
                let mut out = "HDF5 file '".to_owned();
                out.append(name.as_str());
                out.append("' not found");
                out
            },
            DatasetError::Unknown { name } => {
                let mut out = "Unknown ann-benchmarks dataset '".to_owned();
                out.append(name.as_str());
                out.append("'. Pass a path to a local HDF5 file, or one of the known datasets:\n  ");
                out.append(join_texts(&known_datasets(), "\n  ").as_str());
                out
            },
            DatasetError::NoHome => "HOME env var not set".to_owned(),
        }
    }
}

/// `res` is how the dataset `name` is found: `is_path` says whether it is a path, and `cache`,
/// where the home directory is known, the cache directory and the file there.
pub open spec fn is_way_to(
    name: Seq<char>,
    is_path: bool,
    cache: Option<(Seq<char>, Seq<char>)>,
    res: Result<DatasetPlan, DatasetError>,
) -> bool {
    if is_path {
        res matches Ok(DatasetPlan::File { path }) && path@ == name
    } else if !known_names().contains(name) {
        res matches Err(DatasetError::Unknown { name: n }) && n@ == name
    } else {
        match cache {
            None => res matches Err(DatasetError::NoHome),
            Some((dir, path)) => res matches Ok(DatasetPlan::Cached(c)) && {
                &&& c.dir@ == dir
                &&& c.path@ == path
                &&& c.partial@ == path + ".tmp"@
                &&& c.url@ == "http://ann-benchmarks.com/"@ + name + ".hdf5"@
            },
        }
    }
}

/// The texts of a cache directory and the file there.
pub open spec fn place_texts(cache: Option<(String, String)>) -> Option<(Seq<char>, Seq<char>)> {
    match cache {
        Some((dir, path)) => Some((dir@, path@)),
        None => None,
    }
}

/// How the dataset `name` is found: a path, which `is_path` says it is, is used as it is; a
/// known name stands for a file in the cache, downloaded from the ann-benchmarks site; any other
/// name is refused. `cache` is the cache directory and the file there, where the home directory
/// is known.
pub fn dataset_way(name: &str, is_path: bool, cache: Option<(String, String)>) -> (res: Result<
    DatasetPlan,
    DatasetError,
>)
    ensures
        is_way_to(name@, is_path, place_texts(cache), res),
{
    if is_path {
        return Ok(DatasetPlan::File { path: name.to_owned() });
    }
    if !is_known(name) {
        return Err(DatasetError::Unknown { name: name.to_owned() });
    }
    match cache {
        None => Err(DatasetError::NoHome),
        Some((dir, path)) => {
            let mut partial = path.clone();
            partial.append(".tmp");
            let mut url = "http://ann-benchmarks.com/".to_owned();
            url.append(name);
            url.append(".hdf5");
            Ok(DatasetPlan::Cached(CachedDataset { dir, path, partial, url }))
        },
    }
}

/// `cache` is where the dataset `name` is cached under the home directory `home`, which has no
/// backslash.
pub open spec fn is_place(
    home: Seq<char>,
    name: Seq<char>,
    cache: Option<(Seq<char>, Seq<char>)>,
) -> bool {
    cache matches Some((dir, path)) && {
        &&& is_under(home, "dataset-embeddings"@, dir)
        &&& is_plain(name) && !holds(dir, '\\') ==> is_under(dir, name + ".hdf5"@, path)
    }
}

/// How the dataset `name` is found, with `home` the home directory where it is known, as
/// `dataset_way` says it. Whether a text with a separator is a path, and which separator the
/// cached file's path has, depends on the platform.
pub fn ensure_dataset(name: &str, home: Option<&str>) -> (res: Result<DatasetPlan, DatasetError>)
    ensures
        exists|is_path: bool, cache: Option<(Seq<char>, Seq<char>)>| #[trigger]
            is_way_to(name@, is_path, cache, res) && {
                &&& is_plain(name@) ==> is_path == has_hdf5_extension(name@)
                &&& holds(name@, '/') && holds(name@, '\\') ==> is_path
                &&& cache is Some <==> home is Some
                &&& home matches Some(h) ==> (!holds(h@, '\\') ==> is_place(h@, name@, cache))
            },
{
    let is_path = looks_like_path(name);
    let cache: Option<(String, String)> = match home {
        Some(home) => {
            let dir = dataset_cache_dir(home);
            let mut leaf = name.to_owned();
            leaf.append(".hdf5");
            proof {
                reveal_strlit(".hdf5");
            }
            let path = join_path(dir.as_str(), leaf.as_str());
            Some((dir, path))
        },
        None => None,
    };
    let ghost place = place_texts(cache);
    let res = dataset_way(name, is_path, cache);
    assert(is_way_to(name@, is_path, place, res));
    res
}

/// What to do about the file of a dataset.
#[derive(Copy, Clone, Debug, PartialEq, Eq, Structural)]
pub enum DatasetStep {
    /// The file is there: use it.
    Use,
    /// The file of a named dataset is not there: download it.
    Download,
    /// A local file is not there: it cannot be had.
    Refuse,
}

/// What to do, where `present` says whether the file is there.
pub open spec fn dataset_step(plan: DatasetPlan, present: bool) -> DatasetStep {
    if present {
        DatasetStep::Use
    } else if plan is Cached {
        DatasetStep::Download
    } else {
        DatasetStep::Refuse
    }
}

impl DatasetPlan {
    /// What to do, where `present` says whether the file is there.
    pub fn step(&self, present: bool) -> (res: DatasetStep)
        ensures
            res == dataset_step(*self, present),
    {
        match self {
            DatasetPlan::File { path: _ } => if present {
                DatasetStep::Use
            } else {
                DatasetStep::Refuse
            },
            DatasetPlan::Cached(_) => if present {
                DatasetStep::Use
            } else {
                DatasetStep::Download
            },
        }
    }

    /// What the user is told where the file is there.
    pub fn found_line(&self) -> (res: String)
        ensures
            res@ == (match *self {
                DatasetPlan::File { path } => "Using HDF5 file: "@ + path@,
                DatasetPlan::Cached(c) => "Using cached dataset: "@ + c.path@,
            }),
    {
        match self {
            DatasetPlan::File { path } => {
                let mut out = "Using HDF5 file: ".to_owned();
                out.append(path.as_str());
                out
            },
            DatasetPlan::Cached(c) => {
                let mut out = "Using cached dataset: ".to_owned();
                out.append(c.path.as_str());
                out
            },
        }
    }
}

impl CachedDataset {
    /// What the user is told before a download.
    pub fn download_line(&self) -> (res: String)
        ensures
            res@ == "Downloading "@ + self.url@ + " -> "@ + self.path@,
    {
        let mut out = "Downloading ".to_owned();
        out.append(self.url.as_str());
        out.append(" -> ");
        out.append(self.path.as_str());
        out
    }
}

/// A dataset is used only where its file is there, and only a known name is ever downloaded.
pub proof fn law_only_known_names_are_downloaded(
    name: Seq<char>,
    is_path: bool,
    cache: Option<(Seq<char>, Seq<char>)>,
    plan: DatasetPlan,
    present: bool,
)
    requires
        is_way_to(name, is_path, cache, Ok(plan)),
    ensures
        dataset_step(plan, present) is Use <==> present,
        dataset_step(plan, present) is Download ==> known_names().contains(name) && !is_path,
        dataset_step(plan, present) is Refuse ==> is_path,
{
}

/// A path is taken as it is, known or not; any other name must be a known one, whatever the
/// home directory, and then needs a home directory. A download comes from the place of that
/// very name, and is kept apart from the file that it becomes.
#[verifier::rlimit(40)]
pub proof fn law_way_to_a_dataset(
    name: Seq<char>,
    is_path: bool,
    cache: Option<(Seq<char>, Seq<char>)>,
    res: Result<DatasetPlan, DatasetError>,
)
    requires
        is_way_to(name, is_path, cache, res),
    ensures
        is_path <==> (res matches Ok(DatasetPlan::File { path }) && path@ == name),
        res matches Err(DatasetError::Unknown { name: n }) ==> n@ == name && !is_path
            && !known_names().contains(name),
        !is_path && !known_names().contains(name) ==> (res matches Err(
            DatasetError::Unknown { .. },
        )),
        res matches Err(DatasetError::NoHome) <==> !is_path && known_names().contains(name)
            && cache is None,
        !(res matches Err(DatasetError::FileMissing { .. })),
        res matches Ok(DatasetPlan::Cached(c)) ==> cache == Some((c.dir@, c.path@)) && c.partial@
            != c.path@ && crate::text::begins_with(c.partial@, c.path@) && crate::text::ends_in(
            c.url@,
            "/"@ + name + ".hdf5"@,
        ),
{
    if let Ok(DatasetPlan::Cached(c)) = res {
        reveal_strlit(".tmp");
        reveal_strlit("/");
        reveal_strlit("http://ann-benchmarks.com");
        reveal_strlit("http://ann-benchmarks.com/");
        crate::text::lemma_pieces(c.path@, ".tmp"@);
        assert(c.partial@.len() > c.path@.len());
        let site = "http://ann-benchmarks.com"@;
        let leaf = "/"@ + name + ".hdf5"@;
        assert("http://ann-benchmarks.com/"@ =~= site + "/"@);
        assert(c.url@ =~= site + leaf);
        crate::text::lemma_pieces(site, leaf);
    }
}

/// Each of the four signs of a path is enough, and nothing else makes a path.
pub proof fn law_signs_of_a_path(
    arg: Seq<char>,
    absolute: bool,
    separator: char,
    extension: Option<Seq<char>>,
)
    ensures
        absolute ==> is_path_like(arg, absolute, separator, extension),
        arg.contains(separator) ==> is_path_like(arg, absolute, separator, extension),
        is_path_like(arg, absolute, separator, Some("h5"@)),
        is_path_like(arg, absolute, separator, Some("hdf5"@)),
        !absolute && !arg.contains(separator) && extension is None ==> !is_path_like(
            arg,
            absolute,
            separator,
            extension,
        ),
        !absolute && !arg.contains(separator) && extension != Some("h5"@) && extension != Some(
            "hdf5"@,
        ) ==> !is_path_like(arg, absolute, separator, extension),
{
    if arg.contains(separator) {
        let i = choose|i: int| 0 <= i < arg.len() && arg[i] == separator;
        assert(arg[i] == separator);
    }
}

/// A known name is no path, on any platform.
pub proof fn law_known_names_are_no_paths(name: Seq<char>)
    requires
        known_names().contains(name),
    ensures
        is_plain(name),
        !has_hdf5_extension(name),
{
    reveal_strlit("deep-image-96-angular");
    reveal_strlit("fashion-mnist-784-euclidean");
    reveal_strlit("gist-960-euclidean");
    reveal_strlit("glove-25-angular");
    reveal_strlit("glove-50-angular");
    reveal_strlit("glove-100-angular");
    reveal_strlit("glove-200-angular");
    reveal_strlit("lastfm-64-dot");
    reveal_strlit("mnist-784-euclidean");
    reveal_strlit("nytimes-16-angular");
    reveal_strlit("nytimes-256-angular");
    reveal_strlit("sift-128-euclidean");
    let i = choose|i: int| 0 <= i < known_names().len() && known_names()[i] == name;
    if i == 0 {
        assert(is_plain("deep-image-96-angular"@));
    }
    if i == 1 {
        assert(is_plain("fashion-mnist-784-euclidean"@));
    }
    if i == 2 {
        assert(is_plain("gist-960-euclidean"@));
    }
    if i == 3 {
        assert(is_plain("glove-25-angular"@));
    }
    if i == 4 {
        assert(is_plain("glove-50-angular"@));
    }
    if i == 5 {
        assert(is_plain("glove-100-angular"@));
    }
    if i == 6 {
        assert(is_plain("glove-200-angular"@));
    }
    if i == 7 {
        assert(is_plain("lastfm-64-dot"@));
    }
    if i == 8 {
        assert(is_plain("mnist-784-euclidean"@));
    }
    if i == 9 {
        assert(is_plain("nytimes-16-angular"@));
    }
    if i == 10 {
        assert(is_plain("nytimes-256-angular"@));
    }
    if i == 11 {
        assert(is_plain("sift-128-euclidean"@));
    }
    assert(name.len() > 0 && name.last() != '5');
    reveal_strlit("h5");
    reveal_strlit("hdf5");
    if has_extension(name, "h5"@) {
        lemma_extension_is_last(name, "h5"@);
    }
    if has_extension(name, "hdf5"@) {
        lemma_extension_is_last(name, "hdf5"@);
    }
}

proof fn lemma_extension_is_last(name: Seq<char>, extension: Seq<char>)
    requires
        extension.len() > 0,
        has_extension(name, extension),
    ensures
        name.last() == extension.last(),
{
    let end = "."@ + extension;
    let tail = name.subrange(name.len() - end.len(), name.len() as int);
    assert(tail == end);
    assert(tail[end.len() - 1] == end[end.len() - 1]);
}

/// What the user is told where the download from `url` was refused with this status.
pub fn download_error(url: &str, status: &Status) -> (res: Option<String>)
    ensures
        crate::json::opt_text(res) == (if crate::client::is_success(status.code) {
            None
        } else {
            Some("HTTP "@ + status.text@ + " downloading "@ + url@)
        }),
{
    if status.success() {
        return None;
    }
    let mut out = "HTTP ".to_owned();
    out.append(status.text.as_str());
    out.append(" downloading ");
    out.append(url);
    Some(out)
}

} // verus!
