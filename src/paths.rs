//! Where the daemon keeps its files: a private directory under the user's
//! configuration root, holding the status channel and the cue's sound file.

use vstd::prelude::*;

verus! {

/// Why the daemon cannot start.
#[derive(Debug, Clone, Copy, PartialEq, Eq)]
pub enum StartupError {
    /// The configuration root (`XDG_CONFIG_HOME`) is not set.
    ConfigHomeUnset,
}

pub open spec fn dir_suffix() -> Seq<char> {
    seq!['/', 'y', 'a', 'h']
}

pub open spec fn channel_suffix() -> Seq<char> {
    seq!['/', 'c', 'r', 'o', 'n', 'u', 'x']
}

pub open spec fn sound_suffix() -> Seq<char> {
    seq!['/', 's', 'o', 'u', 'n', 'd', '.', 'o', 'g', 'g']
}

/// The daemon's directory, `<config root>/yah`, or an error where the
/// configuration root is not set.
pub fn app_dir(config_home: Option<String>) -> (r: Result<String, StartupError>)
    ensures
        match config_home {
            Some(h) => r matches Ok(d) && d@ == h@ + dir_suffix(),
            None => r == Err::<String, StartupError>(StartupError::ConfigHomeUnset),
        },
{
    match config_home {
        Some(h) => {
            let mut d = h;
            d.append("/yah");
            proof {
                reveal_strlit("/yah");
                assert(d@ =~= h@ + dir_suffix());
            }
            Ok(d)
        },
        None => Err(StartupError::ConfigHomeUnset),
    }
}

/// The status channel, `<dir>/cronux`.
pub fn channel_path(dir: &str) -> (r: String)
    ensures
        r@ == dir@ + channel_suffix(),
{
    let mut p = String::from_str(dir);
    p.append("/cronux");
    proof {
        reveal_strlit("/cronux");
        assert(p@ =~= dir@ + channel_suffix());
    }
    p
}

/// The cue's sound file, `<dir>/sound.ogg`.
pub fn sound_path(dir: &str) -> (r: String)
    ensures
        r@ == dir@ + sound_suffix(),
{
    let mut p = String::from_str(dir);
    p.append("/sound.ogg");
    proof {
        reveal_strlit("/sound.ogg");
        assert(p@ =~= dir@ + sound_suffix());
    }
    p
}

} // verus!
