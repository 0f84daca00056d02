//! Where the databases live.
use vstd::prelude::*;
use vstd::string::*;

use crate::paths;
use crate::text;

verus! {

/// The data directory below the home directory.
pub open spec fn data_place(home: Seq<char>) -> Seq<char> {
    paths::join_path(home, ".local/share/precc"@)
}

/// Default data directory: `~/.local/share/precc`; nothing without a home
/// directory.
pub fn data_dir(home: Option<&str>) -> (r: Option<String>)
    ensures
        text::opt_view(r) == (match home {
            Some(h) => Some(data_place(h@)),
            None => None,
        }),
{
    match home {
        Some(h) => Some(paths::path_join(h, ".local/share/precc")),
        None => None,
    }
}

/// The data directory lies below the home directory.
pub proof fn law_data_lies_below_home(home: Seq<char>)
    ensures
        home.is_prefix_of(data_place(home)),
        paths::components(data_place(home)) == paths::components(home) + paths::components(
            ".local/share/precc"@,
        ),
{
    reveal_strlit(".local/share/precc");
    paths::law_joined_paths(home, ".local/share/precc"@);
}

} // verus!
