//! The build-script directives that link `libdoltlite.a` as a whole
//! archive, so that the static linker keeps the prolly engine's
//! auto-extension registration.

use vstd::prelude::*;
use crate::text::{concat, str_eq, views};

verus! {

/// The directives for the archive at path `archive` when building for
/// `target_os`: a `rerun-if-changed` line, then the platform's
/// whole-archive linker arguments (none on other platforms).
pub open spec fn force_load_lines(archive: Seq<char>, target_os: Seq<char>) -> Seq<Seq<char>> {
    seq!["cargo:rerun-if-changed="@ + archive] + (if target_os == "macos"@ || target_os == "ios"@ {
        seq!["cargo:rustc-link-arg=-Wl,-force_load,"@ + archive]
    } else if target_os == "linux"@ || target_os == "android"@ {
        seq![
            "cargo:rustc-link-arg=-Wl,--whole-archive"@,
            "cargo:rustc-link-arg="@ + archive,
            "cargo:rustc-link-arg=-Wl,--no-whole-archive"@,
        ]
    } else if target_os == "windows"@ {
        seq!["cargo:rustc-link-arg=/WHOLEARCHIVE:"@ + archive]
    } else {
        seq![]
    })
}

/// Android links the archive exactly as Linux does and iOS exactly as
/// macOS does; on Linux the archive is wrapped in `--whole-archive` /
/// `--no-whole-archive`, after the `rerun-if-changed` line.
pub proof fn law_platform_families_link_alike(archive: Seq<char>)
    ensures
        force_load_lines(archive, "android"@) == force_load_lines(archive, "linux"@),
        force_load_lines(archive, "ios"@) == force_load_lines(archive, "macos"@),
        force_load_lines(archive, "linux"@) == seq![
            "cargo:rerun-if-changed="@ + archive,
            "cargo:rustc-link-arg=-Wl,--whole-archive"@,
            "cargo:rustc-link-arg="@ + archive,
            "cargo:rustc-link-arg=-Wl,--no-whole-archive"@,
        ],
        force_load_lines(archive, "macos"@) == seq![
            "cargo:rerun-if-changed="@ + archive,
            "cargo:rustc-link-arg=-Wl,-force_load,"@ + archive,
        ],
{
    reveal_strlit("android");
    reveal_strlit("linux");
    reveal_strlit("ios");
    reveal_strlit("macos");
    assert("android"@ != "macos"@ && "android"@ != "ios"@) by {
        assert("android"@[0] != "macos"@[0]);
        assert("android"@[0] != "ios"@[0]);
    }
    assert("linux"@ != "macos"@ && "linux"@ != "ios"@) by {
        assert("linux"@[0] != "macos"@[0]);
        assert("linux"@[0] != "ios"@[0]);
    }
    assert(force_load_lines(archive, "android"@) =~= force_load_lines(archive, "linux"@));
    assert(force_load_lines(archive, "ios"@) =~= force_load_lines(archive, "macos"@));
    assert(force_load_lines(archive, "linux"@) =~= seq![
        "cargo:rerun-if-changed="@ + archive,
        "cargo:rustc-link-arg=-Wl,--whole-archive"@,
        "cargo:rustc-link-arg="@ + archive,
        "cargo:rustc-link-arg=-Wl,--no-whole-archive"@,
    ]);
    assert(force_load_lines(archive, "macos"@) =~= seq![
        "cargo:rerun-if-changed="@ + archive,
        "cargo:rustc-link-arg=-Wl,-force_load,"@ + archive,
    ]);
}

/// The `cargo:` directives, in order, that force-load the archive at
/// `archive` for `target_os` (`force_load_lines`).
pub fn force_load_directives(archive: &str, target_os: &str) -> (r: Vec<String>)
    ensures
        views(r@) == force_load_lines(archive@, target_os@),
{
    let mut out: Vec<String> = Vec::new();
    out.push(concat("cargo:rerun-if-changed=", archive));
    if str_eq(target_os, "macos") || str_eq(target_os, "ios") {
        out.push(concat("cargo:rustc-link-arg=-Wl,-force_load,", archive));
    } else if str_eq(target_os, "linux") || str_eq(target_os, "android") {
        out.push("cargo:rustc-link-arg=-Wl,--whole-archive".to_owned());
        out.push(concat("cargo:rustc-link-arg=", archive));
        out.push("cargo:rustc-link-arg=-Wl,--no-whole-archive".to_owned());
    } else if str_eq(target_os, "windows") {
        out.push(concat("cargo:rustc-link-arg=/WHOLEARCHIVE:", archive));
    }
    assert(views(out@) =~= force_load_lines(archive@, target_os@));
    out
}

} // verus!
