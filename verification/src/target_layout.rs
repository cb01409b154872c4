//! The layout of the `target/` directory.
//!
//! ```text
//! target/
//! ├── .cust-version
//! ├── compile_commands.json
//! ├── debug/
//! │   ├── prelude.h
//! │   ├── .h-fragments/<crate>/<module>.cust.h
//! │   ├── .test-discovery/<crate>/<module>.cust.tests
//! │   ├── .test-discovery/<crate>/tests/<stem>.cust.tests
//! │   ├── .check/<crate>/<module>.checked
//! │   ├── build/<crate>/include/<crate>.h
//! │   ├── build/<crate>/lib<crate>.a
//! │   ├── deps/<crate>                  (a link to build/<crate>)
//! │   ├── test/<crate>/<crate>
//! │   └── test/<crate>/<stem>/<stem>
//! └── release/  (same shape)
//! ```
use vstd::prelude::*;
use vstd::string::*;

use crate::paths::{join, joined};
use crate::profile::ProfileKind;

verus! {

/// Which tests a sidecar file lists: those of a module, or those of an
/// integration test.
#[derive(Debug, Clone, Copy)]
pub enum TestOrigin<'a> {
    /// A module, by its qualified name.
    Unit { qualified_name: &'a str },
    /// An integration test, by its stem.
    Integration { stem: &'a str },
}

/// The `target/` directory of a workspace, for one profile.
#[derive(Debug, Clone)]
pub struct TargetLayout {
    pub target_root: String,
    pub profile_root: String,
    pub kind: ProfileKind,
}

/// The sidecar of a module, in the directory `dir`.
pub open spec fn unit_sidecar(dir: Seq<char>, qualified_name: Seq<char>) -> Seq<char> {
    joined(dir, qualified_name + ".cust.tests"@)
}

/// The sidecar of an integration test, in the directory `dir`.
pub open spec fn integration_sidecar(dir: Seq<char>, stem: Seq<char>) -> Seq<char> {
    joined(joined(dir, "tests"@), stem + ".cust.tests"@)
}

/// `name` with `extension` after it, in the directory `dir`.
fn file_in(dir: &str, name: &str, extension: &str) -> (r: String)
    ensures
        r@ == joined(dir@, name@ + extension@),
{
    let mut file: String = name.to_owned();
    file.append(extension);
    join(dir, file.as_str())
}

impl TargetLayout {
    /// The layout of the workspace in `root`.
    pub open spec fn is_of(self, root: Seq<char>, kind: ProfileKind) -> bool {
        &&& self.target_root@ == joined(root, "target"@)
        &&& self.profile_root@ == joined(self.target_root@, kind.dir_text())
        &&& self.kind == kind
    }

    pub open spec fn fragments_text(self, crate_name: Seq<char>) -> Seq<char> {
        joined(joined(self.profile_root@, ".h-fragments"@), crate_name)
    }

    pub open spec fn fragment_text(self, crate_name: Seq<char>, qualified_name: Seq<char>) -> Seq<
        char,
    > {
        joined(self.fragments_text(crate_name), qualified_name + ".cust.h"@)
    }

    pub open spec fn discovery_text(self, crate_name: Seq<char>) -> Seq<char> {
        joined(joined(self.profile_root@, ".test-discovery"@), crate_name)
    }

    pub open spec fn check_text(self, crate_name: Seq<char>) -> Seq<char> {
        joined(joined(self.profile_root@, ".check"@), crate_name)
    }

    pub open spec fn build_text(self, crate_name: Seq<char>) -> Seq<char> {
        joined(joined(self.profile_root@, "build"@), crate_name)
    }

    pub open spec fn include_text(self, crate_name: Seq<char>) -> Seq<char> {
        joined(self.build_text(crate_name), "include"@)
    }

    pub open spec fn header_text(self, crate_name: Seq<char>) -> Seq<char> {
        joined(self.include_text(crate_name), crate_name + ".h"@)
    }

    pub open spec fn test_build_text(self, crate_name: Seq<char>) -> Seq<char> {
        joined(joined(self.profile_root@, "test"@), crate_name)
    }

    pub open spec fn test_exe_text(self, crate_name: Seq<char>) -> Seq<char> {
        joined(self.test_build_text(crate_name), crate_name)
    }

    pub open spec fn integration_build_text(self, crate_name: Seq<char>, stem: Seq<char>) -> Seq<
        char,
    > {
        joined(self.test_build_text(crate_name), stem)
    }

    pub open spec fn integration_exe_text(self, crate_name: Seq<char>, stem: Seq<char>) -> Seq<
        char,
    > {
        joined(self.integration_build_text(crate_name, stem), stem)
    }

    /// The layout of the workspace in `workspace_root`.
    pub fn for_workspace(workspace_root: &str, kind: ProfileKind) -> (r: TargetLayout)
        ensures
            r.is_of(workspace_root@, kind),
    {
        let target_root: String = join(workspace_root, "target");
        let profile_root: String = join(target_root.as_str(), kind.dir_name());
        TargetLayout { target_root, profile_root, kind }
    }

    /// The header that every unit is compiled with.
    pub fn prelude_path(&self) -> (r: String)
        ensures
            r@ == joined(self.profile_root@, "prelude.h"@),
    {
        join(self.profile_root.as_str(), "prelude.h")
    }

    /// The directory of a crate's fragment headers.
    pub fn fragments_dir(&self, crate_name: &str) -> (r: String)
        ensures
            r@ == self.fragments_text(crate_name@),
    {
        join(join(self.profile_root.as_str(), ".h-fragments").as_str(), crate_name)
    }

    /// The fragment header of a module.
    pub fn fragment_path(&self, crate_name: &str, qualified_name: &str) -> (r: String)
        ensures
            r@ == self.fragment_text(crate_name@, qualified_name@),
    {
        file_in(self.fragments_dir(crate_name).as_str(), qualified_name, ".cust.h")
    }

    /// The directory of a crate's test sidecars.
    pub fn test_discovery_dir(&self, crate_name: &str) -> (r: String)
        ensures
            r@ == self.discovery_text(crate_name@),
    {
        join(join(self.profile_root.as_str(), ".test-discovery").as_str(), crate_name)
    }

    /// The sidecar that lists the tests of `origin`.
    pub fn test_sidecar_path(&self, crate_name: &str, origin: TestOrigin<'_>) -> (r: String)
        ensures
            r@ == match origin {
                TestOrigin::Unit { qualified_name } => unit_sidecar(
                    self.discovery_text(crate_name@),
                    qualified_name@,
                ),
                TestOrigin::Integration { stem } => integration_sidecar(
                    self.discovery_text(crate_name@),
                    stem@,
                ),
            },
    {
        let dir: String = self.test_discovery_dir(crate_name);
        match origin {
            TestOrigin::Unit { qualified_name } => file_in(
                dir.as_str(),
                qualified_name,
                ".cust.tests",
            ),
            TestOrigin::Integration { stem } => file_in(
                join(dir.as_str(), "tests").as_str(),
                stem,
                ".cust.tests",
            ),
        }
    }

    /// The directory of a crate's check stamps.
    pub fn check_dir(&self, crate_name: &str) -> (r: String)
        ensures
            r@ == self.check_text(crate_name@),
    {
        join(join(self.profile_root.as_str(), ".check").as_str(), crate_name)
    }

    /// The check stamp of a module.
    pub fn check_stamp_path(&self, crate_name: &str, qualified_name: &str) -> (r: String)
        ensures
            r@ == joined(self.check_text(crate_name@), qualified_name@ + ".checked"@),
    {
        file_in(self.check_dir(crate_name).as_str(), qualified_name, ".checked")
    }

    /// The directory in which an integration test is built and run.
    pub fn integration_test_build_dir(&self, member_name: &str, stem: &str) -> (r: String)
        ensures
            r@ == self.integration_build_text(member_name@, stem@),
    {
        join(self.test_build_dir(member_name).as_str(), stem)
    }

    /// The executable of an integration test.
    pub fn integration_test_executable_path(&self, member_name: &str, stem: &str) -> (r: String)
        ensures
            r@ == self.integration_exe_text(member_name@, stem@),
    {
        join(self.integration_test_build_dir(member_name, stem).as_str(), stem)
    }

    /// The public header of a crate.
    pub fn crate_header_path(&self, crate_name: &str) -> (r: String)
        ensures
            r@ == self.header_text(crate_name@),
    {
        file_in(join(self.build_dir(crate_name).as_str(), "include").as_str(), crate_name, ".h")
    }

    /// Where a crate's outputs are seen by the crates that depend on it.
    pub fn dep_dir(&self, dep_name: &str) -> (r: String)
        ensures
            r@ == joined(joined(self.profile_root@, "deps"@), dep_name@),
    {
        join(join(self.profile_root.as_str(), "deps").as_str(), dep_name)
    }

    /// The directory of a crate's outputs.
    pub fn build_dir(&self, member_name: &str) -> (r: String)
        ensures
            r@ == self.build_text(member_name@),
    {
        join(join(self.profile_root.as_str(), "build").as_str(), member_name)
    }

    /// The directory in which a crate's tests are built.
    pub fn test_build_dir(&self, member_name: &str) -> (r: String)
        ensures
            r@ == self.test_build_text(member_name@),
    {
        join(join(self.profile_root.as_str(), "test").as_str(), member_name)
    }

    /// The executable of a crate's unit tests.
    pub fn test_executable_path(&self, member_name: &str) -> (r: String)
        ensures
            r@ == self.test_exe_text(member_name@),
    {
        join(self.test_build_dir(member_name).as_str(), member_name)
    }
}

/// Whether a name is a single path component.
pub open spec fn is_component(name: Seq<char>) -> bool {
    name.len() > 0 && !name.contains('/')
}

/// The sidecar of a module and the sidecar of an integration test are never
/// the same file.
pub proof fn law_sidecars_never_collide(
    dir: Seq<char>,
    qualified_name: Seq<char>,
    stem: Seq<char>,
)
    requires
        is_component(qualified_name),
        is_component(stem),
    ensures
        unit_sidecar(dir, qualified_name) != integration_sidecar(dir, stem),
{
    reveal_strlit("tests");
    reveal_strlit(".cust.tests");
    reveal_strlit("/");
    let base = if dir.len() == 0 || dir.last() == '/' {
        dir
    } else {
        dir + "/"@
    };
    let unit = qualified_name + ".cust.tests"@;
    let nested = "tests"@ + "/"@ + stem + ".cust.tests"@;
    assert(qualified_name.contains(qualified_name[0]));
    assert(stem.contains(stem[0]));
    assert(unit_sidecar(dir, qualified_name) =~= base + unit);
    assert(joined(dir, "tests"@).last() == 's');
    assert(integration_sidecar(dir, stem) =~= base + nested);
    if base + unit == base + nested {
        assert((base + unit)[base.len() as int + 5] == unit[5]);
        assert((base + nested)[base.len() as int + 5] == nested[5]);
        assert(nested[5] == '/');
        assert(unit.len() == nested.len());
        if qualified_name.len() > 5 {
            assert(unit[5] == qualified_name[5]);
            assert(qualified_name.contains('/'));
        } else {
            assert(unit[5] == ".cust.tests"@[5 - qualified_name.len()]);
        }
    }
}

/// Where no integration test has the name of the crate, the directory of an
/// integration test is not the executable of the unit tests, and neither is
/// its executable.
pub proof fn law_test_executables_never_collide(
    layout: TargetLayout,
    crate_name: Seq<char>,
    stem: Seq<char>,
)
    requires
        is_component(crate_name),
        is_component(stem),
        stem != crate_name,
    ensures
        layout.integration_build_text(crate_name, stem) != layout.test_exe_text(crate_name),
        layout.integration_exe_text(crate_name, stem) != layout.test_exe_text(crate_name),
{
    reveal_strlit("/");
    let dir = layout.test_build_text(crate_name);
    let base = if dir.len() == 0 || dir.last() == '/' {
        dir
    } else {
        dir + "/"@
    };
    assert(crate_name.contains(crate_name[0]));
    assert(stem.contains(stem[0]));
    assert(stem.contains(stem.last()));
    assert(joined(dir, crate_name) =~= base + crate_name);
    assert(joined(dir, stem) =~= base + stem);
    assert((base + stem).skip(base.len() as int) =~= stem);
    assert((base + crate_name).skip(base.len() as int) =~= crate_name);
    let exe = layout.integration_exe_text(crate_name, stem);
    assert((base + stem).last() == stem.last());
    assert(exe =~= base + stem + "/"@ + stem);
    if exe == base + crate_name {
        let at = base.len() + stem.len();
        assert(exe[at as int] == '/');
        assert((base + crate_name)[at as int] == crate_name[stem.len() as int]);
        assert(crate_name.contains('/'));
    }
}

/// The two profiles have no file in common: their directories differ.
pub proof fn law_profiles_are_apart(dev: TargetLayout, release: TargetLayout, root: Seq<char>)
    requires
        dev.is_of(root, ProfileKind::Dev),
        release.is_of(root, ProfileKind::Release),
    ensures
        dev.target_root@ == release.target_root@,
        dev.profile_root@ != release.profile_root@,
{
    reveal_strlit("debug");
    reveal_strlit("release");
    reveal_strlit("target");
    reveal_strlit("/");
    let target = dev.target_root@;
    assert(target.last() == 't');
    let a = target + "/"@ + "debug"@;
    let b = target + "/"@ + "release"@;
    assert(dev.profile_root@ == a && release.profile_root@ == b);
    assert(a.len() != b.len());
}

} // verus!
