//! Which platform the program runs on.

use crate::text::str_eq;
use vstd::prelude::*;

verus! {

/// A platform.
#[derive(Debug, Clone, Copy, PartialEq, Eq, Structural)]
pub enum Platform {
    Android,
    Ios,
    Macos,
    Windows,
    Linux,
    Other,
}

/// The platform of a name, as the compiler spells it.
pub open spec fn platform_named(name: Seq<char>) -> Platform {
    if name == "android"@ {
        Platform::Android
    } else if name == "ios"@ {
        Platform::Ios
    } else if name == "macos"@ {
        Platform::Macos
    } else if name == "windows"@ {
        Platform::Windows
    } else if name == "linux"@ {
        Platform::Linux
    } else {
        Platform::Other
    }
}

impl Platform {
    /// The platform of a name, as the compiler spells it.
    pub fn from_name(name: &str) -> (p: Platform)
        ensures
            p == platform_named(name@),
    {
        if str_eq(name, "android") {
            Platform::Android
        } else if str_eq(name, "ios") {
            Platform::Ios
        } else if str_eq(name, "macos") {
            Platform::Macos
        } else if str_eq(name, "windows") {
            Platform::Windows
        } else if str_eq(name, "linux") {
            Platform::Linux
        } else {
            Platform::Other
        }
    }
}

/// Returns whether a platform is Android.
pub fn is_android(p: Platform) -> (r: bool)
    ensures
        r == (p == Platform::Android),
{
    p == Platform::Android
}

/// Returns whether a platform is iOS.
pub fn is_ios(p: Platform) -> (r: bool)
    ensures
        r == (p == Platform::Ios),
{
    p == Platform::Ios
}

/// Returns whether a platform is macOS.
pub fn is_macos(p: Platform) -> (r: bool)
    ensures
        r == (p == Platform::Macos),
{
    p == Platform::Macos
}

/// Returns whether a platform is Windows.
pub fn is_windows(p: Platform) -> (r: bool)
    ensures
        r == (p == Platform::Windows),
{
    p == Platform::Windows
}

/// Returns whether a platform is Linux.
pub fn is_linux(p: Platform) -> (r: bool)
    ensures
        r == (p == Platform::Linux),
{
    p == Platform::Linux
}

/// Whether a platform is one of Apple's.
pub open spec fn apple(p: Platform) -> bool {
    p == Platform::Ios || p == Platform::Macos
}

/// Whether a platform is a mobile one.
pub open spec fn mobile(p: Platform) -> bool {
    p == Platform::Android || p == Platform::Ios
}

/// Whether a platform is a supported desktop one.
pub open spec fn desktop(p: Platform) -> bool {
    p == Platform::Macos || p == Platform::Windows || p == Platform::Linux
}

/// Returns whether a platform is one of Apple's.
pub fn is_apple(p: Platform) -> (r: bool)
    ensures
        r == apple(p),
{
    is_ios(p) || is_macos(p)
}

/// Returns whether a platform is a mobile one.
pub fn is_mobile(p: Platform) -> (r: bool)
    ensures
        r == mobile(p),
{
    is_android(p) || is_ios(p)
}

/// Returns whether a platform is a supported desktop one.
pub fn is_desktop(p: Platform) -> (r: bool)
    ensures
        r == desktop(p),
{
    is_macos(p) || is_windows(p) || is_linux(p)
}

/// Every supported platform is either a mobile or a desktop one.
pub proof fn law_mobile_or_desktop(p: Platform)
    ensures
        p != Platform::Other <==> (mobile(p) || desktop(p)),
        !(mobile(p) && desktop(p)),
{
}

/// A platform is known by its name, and every other name is none of them.
pub proof fn law_platforms_by_name(name: Seq<char>)
    ensures
        platform_named("android"@) == Platform::Android,
        platform_named("ios"@) == Platform::Ios,
        platform_named("macos"@) == Platform::Macos,
        platform_named("windows"@) == Platform::Windows,
        platform_named("linux"@) == Platform::Linux,
        name != "android"@ && name != "ios"@ && name != "macos"@ && name != "windows"@ && name
            != "linux"@ ==> platform_named(name) == Platform::Other,
        apple(platform_named(name)) <==> name == "ios"@ || name == "macos"@,
        mobile(platform_named(name)) <==> name == "ios"@ || name == "android"@,
        desktop(platform_named(name)) <==> name == "macos"@ || name == "windows"@ || name
            == "linux"@,
{
    reveal_strlit("android");
    reveal_strlit("ios");
    reveal_strlit("macos");
    reveal_strlit("windows");
    reveal_strlit("linux");
    assert("android"@.len() == 7 && "windows"@.len() == 7 && "macos"@.len() == 5 && "linux"@.len()
        == 5 && "ios"@.len() == 3);
    assert("android"@[0] != "windows"@[0]);
    assert("macos"@[0] != "linux"@[0]);
}

} // verus!
