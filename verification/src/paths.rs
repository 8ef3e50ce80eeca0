//! Where the stores live on disk.
use crate::text::{push_str, string_from};
use vstd::prelude::*;

verus! {

/// `PathBuf::join` of a relative segment: a `/` is put between `base` and
/// `segment` unless `base` is empty or already ends with one.
pub open spec fn join(base: Seq<char>, segment: Seq<char>) -> Seq<char> {
    if base.len() > 0 && base.last() != '/' {
        base + seq!['/'] + segment
    } else {
        base + segment
    }
}

/// Joins a relative `segment` to `base`.
pub fn path_join(base: &str, segment: &str) -> (r: String)
    ensures
        r@ == join(base@, segment@),
{
    let v = crate::text::chars_of(base);
    let mut s = string_from(base);
    if v.len() > 0 && v[v.len() - 1] != '/' {
        crate::text::string_push(&mut s, '/');
        assert(base@.push('/') =~= base@ + seq!['/']);
    }
    push_str(&mut s, segment);
    s
}

/// The stores of the Rockerfile engine, under `/var/rocker`.
pub struct RockerPaths;

impl RockerPaths {
    /// `/var/rocker`.
    pub fn base_dir() -> (r: String)
        ensures
            r@ == "/var/rocker"@,
    {
        string_from("/var/rocker")
    }

    /// `images` under the base directory.
    pub fn image_store_dir() -> (r: String)
        ensures
            r@ == join("/var/rocker"@, "images"@),
    {
        path_join(Self::base_dir().as_str(), "images")
    }

    /// `layouts` under the base directory.
    pub fn layout_store_dir() -> (r: String)
        ensures
            r@ == join("/var/rocker"@, "layouts"@),
    {
        path_join(Self::base_dir().as_str(), "layouts")
    }

    /// `containers` under the base directory.
    pub fn runtime_dir() -> (r: String)
        ensures
            r@ == join("/var/rocker"@, "containers"@),
    {
        path_join(Self::base_dir().as_str(), "containers")
    }

    /// The directories created at start-up, in order: images, containers, layouts.
    pub fn system_dirs() -> (r: Vec<String>)
        ensures
            r@.len() == 3,
            r@[0]@ == join("/var/rocker"@, "images"@),
            r@[1]@ == join("/var/rocker"@, "containers"@),
            r@[2]@ == join("/var/rocker"@, "layouts"@),
    {
        let mut v: Vec<String> = Vec::new();
        v.push(Self::image_store_dir());
        v.push(Self::runtime_dir());
        v.push(Self::layout_store_dir());
        v
    }
}

/// The stores of the engine, under `$CRABTAINER_HOME` or `/var/lib/crabtainer`.
pub struct CrabtainerPaths;

/// The base directory for the value of `CRABTAINER_HOME` (`None` when unset).
pub open spec fn spec_base_dir(home: Option<Seq<char>>) -> Seq<char> {
    match home {
        Some(h) => h,
        None => "/var/lib/crabtainer"@,
    }
}

impl CrabtainerPaths {
    /// `home` is the value of `CRABTAINER_HOME`, `None` when it is unset.
    pub fn base_dir(home: Option<&str>) -> (r: String)
        ensures
            r@ == spec_base_dir(
                match home {
                    Some(h) => Some(h@),
                    None => None,
                },
            ),
    {
        match home {
            Some(h) => string_from(h),
            None => string_from("/var/lib/crabtainer"),
        }
    }

    /// `images` under the base directory.
    pub fn image_store_dir(home: Option<&str>) -> (r: String)
        ensures
            r@ == join(
                spec_base_dir(
                    match home {
                        Some(h) => Some(h@),
                        None => None,
                    },
                ),
                "images"@,
            ),
    {
        path_join(Self::base_dir(home).as_str(), "images")
    }

    /// `layouts` under the base directory.
    pub fn layout_store_dir(home: Option<&str>) -> (r: String)
        ensures
            r@ == join(
                spec_base_dir(
                    match home {
                        Some(h) => Some(h@),
                        None => None,
                    },
                ),
                "layouts"@,
            ),
    {
        path_join(Self::base_dir(home).as_str(), "layouts")
    }

    /// `containers` under the base directory.
    pub fn runtime_dir(home: Option<&str>) -> (r: String)
        ensures
            r@ == join(
                spec_base_dir(
                    match home {
                        Some(h) => Some(h@),
                        None => None,
                    },
                ),
                "containers"@,
            ),
    {
        path_join(Self::base_dir(home).as_str(), "containers")
    }

    /// The directories created at start-up, in order: images, containers, layouts.
    pub fn system_dirs(home: Option<&str>) -> (r: Vec<String>)
        ensures
            r@.len() == 3,
            r@[0]@ == join(spec_base_dir(match home { Some(h) => Some(h@), None => None }), "images"@),
            r@[1]@ == join(spec_base_dir(match home { Some(h) => Some(h@), None => None }), "containers"@),
            r@[2]@ == join(spec_base_dir(match home { Some(h) => Some(h@), None => None }), "layouts"@),
    {
        let mut v: Vec<String> = Vec::new();
        v.push(Self::image_store_dir(home));
        v.push(Self::runtime_dir(home));
        v.push(Self::layout_store_dir(home));
        v
    }
}

} // verus!
