//! The host's developer flag.
//!
//! Host applications load unsigned extensions only where the flag
//! `PlayerDebugMode` is set in the store of their runtime version: a key of
//! the registry on Windows, a preferences file on macOS. What is read from
//! the store is interpreted here, and what is to be written to it is decided
//! here; reading and writing are the caller's.

use crate::folders::{Environment, EnvironmentView, Platform};
use crate::text::{chars_of, is_word, trim, trimmed};
use vstd::prelude::*;
use vstd::string::StringExecFns;

verus! {

/// One value to be written to the store.
#[derive(Debug)]
pub struct DebugWrite {
    /// The key of the registry, or the preferences file.
    pub location: String,
    /// The value of the flag.
    pub value: String,
}

/// The mathematical value of a [`DebugWrite`].
pub struct DebugWriteView {
    pub location: Seq<char>,
    pub value: Seq<char>,
}

impl View for DebugWrite {
    type V = DebugWriteView;

    open spec fn view(&self) -> DebugWriteView {
        DebugWriteView { location: self.location@, value: self.value@ }
    }
}

/// The values of a list of writes.
pub open spec fn writes_of(list: Seq<DebugWrite>) -> Seq<DebugWriteView> {
    list.map_values(|w: DebugWrite| w@)
}

/// The name of the flag in the store.
pub open spec fn flag_name() -> Seq<char> {
    "PlayerDebugMode"@
}

/// The runtime versions whose stores are written, the newest first.
pub open spec fn runtime_versions() -> Seq<Seq<char>> {
    seq!["11"@, "10"@, "9"@, "8"@, "7"@]
}

/// The user's home directory as the preferences files are named by it.
pub open spec fn home_of(env: EnvironmentView) -> Seq<char> {
    match env.home {
        Some(home) => home,
        None => Seq::<char>::empty(),
    }
}

/// The store of the runtime `version`; there is none on other platforms.
pub open spec fn store_location(platform: Platform, env: EnvironmentView, version: Seq<char>)
    -> Option<Seq<char>> {
    match platform {
        Platform::Windows => Some("SOFTWARE\\Adobe\\CSXS."@ + version),
        Platform::MacOs => Some(
            home_of(env) + "/Library/Preferences/com.adobe.CSXS."@ + version + ".plist"@,
        ),
        Platform::Other => None,
    }
}

/// What the store says of the flag: it is set where the value read is `1`,
/// on macOS after trimming. A value that could not be read says that it is
/// not set, and so does any platform without a store.
pub open spec fn flag_set(platform: Platform, stored: Option<Seq<char>>) -> bool {
    match platform {
        Platform::Windows => stored == Some("1"@),
        Platform::MacOs => match stored {
            Some(v) => trimmed(v) == "1"@,
            None => false,
        },
        Platform::Other => false,
    }
}

/// The value that stands for `enabled` in the store.
pub open spec fn flag_value(enabled: bool) -> Seq<char> {
    if enabled {
        "1"@
    } else {
        "0"@
    }
}

/// The writes that set the flag to `enabled`: one for every runtime version,
/// in their order.
pub open spec fn flag_writes(platform: Platform, env: EnvironmentView, enabled: bool) -> Seq<
    DebugWriteView,
> {
    runtime_versions().map_values(
        |v: Seq<char>|
            DebugWriteView {
                location: store_location(platform, env, v).unwrap(),
                value: flag_value(enabled),
            },
    )
}

/// The name of the flag in the store.
pub fn debug_flag_name() -> (r: String)
    ensures
        r@ == flag_name(),
{
    "PlayerDebugMode".to_string()
}

/// The store of the runtime `version`.
pub fn debug_store(platform: Platform, env: &Environment, version: &str) -> (r: Option<String>)
    ensures
        match r {
            Some(l) => store_location(platform, env@, version@) == Some(l@),
            None => store_location(platform, env@, version@) is None,
        },
{
    match platform {
        Platform::Windows => Some("SOFTWARE\\Adobe\\CSXS.".to_string().concat(version)),
        Platform::MacOs => {
            let home = match &env.home {
                Some(home) => home.clone(),
                None => String::new(),
            };
            Some(
                home.concat("/Library/Preferences/com.adobe.CSXS.").concat(version).concat(
                    ".plist",
                ),
            )
        },
        Platform::Other => None,
    }
}

/// The store from which the flag is read: that of the newest runtime.
pub fn debug_mode_source(platform: Platform, env: &Environment) -> (r: Option<String>)
    ensures
        match r {
            Some(l) => store_location(platform, env@, "11"@) == Some(l@),
            None => store_location(platform, env@, "11"@) is None,
        },
{
    debug_store(platform, env, "11")
}

/// Whether the flag is set, given the value `stored` under its name in the
/// store of [`debug_mode_source`]; `None` where no value could be read.
pub fn get_debug_mode(platform: Platform, stored: &Option<String>) -> (r: bool)
    ensures
        r == flag_set(
            platform,
            match *stored {
                Some(v) => Some(v@),
                None => None,
            },
        ),
{
    match stored {
        None => false,
        Some(v) => {
            let chars = chars_of(v.as_str());
            match platform {
                Platform::Windows => is_word(chars.as_slice(), "1"),
                Platform::MacOs => is_word(trim(chars.as_slice()), "1"),
                Platform::Other => false,
            }
        },
    }
}

/// Decides what to write to set the flag: its value for every runtime
/// version, so that it holds whichever runtime the host has. The writes are
/// independent, and one that fails holds up none of the others. On a platform
/// without a store the call fails.
pub fn set_debug_mode(platform: Platform, env: &Environment, enabled: bool) -> (r: Result<
    Vec<DebugWrite>,
    String,
>)
    ensures
        match platform {
            Platform::Other => r matches Err(message) && message@ == "Unsupported platform"@,
            _ => r matches Ok(writes) && writes_of(writes@) == flag_writes(platform, env@, enabled),
        },
{
    let mut versions: Vec<&str> = Vec::new();
    versions.push("11");
    versions.push("10");
    versions.push("9");
    versions.push("8");
    versions.push("7");
    let mut writes: Vec<DebugWrite> = Vec::new();
    let mut i: usize = 0;
    while i < versions.len()
        invariant
            i <= versions@.len(),
            versions@.len() == 5,
            versions@.map_values(|v: &str| v@) == runtime_versions(),
            writes@.len() == i,
            i > 0 ==> !(platform is Other),
            forall|k: int|
                0 <= k < i ==> (#[trigger] writes@[k])@ == flag_writes(platform, env@, enabled)[k],
        decreases versions@.len() - i,
    {
        match debug_store(platform, env, versions[i]) {
            None => {
                return Err("Unsupported platform".to_string());
            },
            Some(location) => {
                let value = if enabled {
                    "1".to_string()
                } else {
                    "0".to_string()
                };
                assert(versions@.map_values(|v: &str| v@)[i as int] == versions@[i as int]@);
                writes.push(DebugWrite { location, value });
            },
        }
        i += 1;
    }
    assert(writes_of(writes@) =~= flag_writes(platform, env@, enabled));
    Ok(writes)
}

} // verus!
