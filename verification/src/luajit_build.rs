//! The plan of a build of the runtime from its sources.
//!
//! The build itself runs tools and moves files; what is decided before it
//! runs is decided here: which way to build for a target, which tools and
//! flags to use, and where the results lie.
use crate::text::bytes_of_text;
use vstd::prelude::*;
use vstd::string::{StrSliceExecFns, StringExecFns};
use vstd::utf8::encode_utf8;

verus! {

/// The bytes `part` stand in `whole` at `at`.
pub open spec fn occurs_at(whole: Seq<u8>, part: Seq<u8>, at: int) -> bool {
    &&& 0 <= at
    &&& at + part.len() <= whole.len()
    &&& whole.subrange(at, at + part.len()) == part
}

/// The bytes `part` stand somewhere in `whole`.
pub open spec fn has_part(whole: Seq<u8>, part: Seq<u8>) -> bool {
    exists|at: int| occurs_at(whole, part, at)
}

/// The bytes `whole` end with `part`.
pub open spec fn ends_with(whole: Seq<u8>, part: Seq<u8>) -> bool {
    occurs_at(whole, part, whole.len() - part.len())
}

/// Whether `part` stands in `whole` at `at`.
fn matches_at(whole: &Vec<u8>, part: &Vec<u8>, at: usize) -> (r: bool)
    requires
        at + part@.len() <= whole@.len(),
    ensures
        r == occurs_at(whole@, part@, at as int),
{
    let total = whole.len();
    let mut k: usize = 0;
    while k < part.len()
        invariant
            k <= part.len(),
            at + part@.len() <= whole@.len(),
            total == whole@.len(),
            forall|j: int| 0 <= j < k ==> whole@[at + j] == part@[j],
        decreases part.len() - k,
    {
        if whole[at + k] != part[k] {
            assert(whole@.subrange(at as int, at + part@.len())[k as int] != part@[k as int]);
            return false;
        }
        k += 1;
    }
    assert(whole@.subrange(at as int, at + part@.len()) =~= part@);
    true
}

/// Whether the text `part` stands somewhere in the text `whole`.
pub fn contains_text(whole: &String, part: &str) -> (r: bool)
    ensures
        r == has_part(encode_utf8(whole@), encode_utf8(part@)),
{
    let hay = bytes_of_text(whole);
    let pat = part.as_bytes_vec();
    if pat.len() > hay.len() {
        return false;
    }
    let last = hay.len() - pat.len();
    let mut at: usize = 0;
    while at < last
        invariant
            at <= last,
            last == hay@.len() - pat@.len(),
            hay@ == encode_utf8(whole@),
            pat@ == encode_utf8(part@),
            forall|j: int| 0 <= j < at ==> !occurs_at(hay@, pat@, j),
        decreases last - at,
    {
        if matches_at(&hay, &pat, at) {
            return true;
        }
        at += 1;
    }
    matches_at(&hay, &pat, last)
}

/// Whether the text `whole` ends with the text `part`.
pub fn ends_with_text(whole: &String, part: &str) -> (r: bool)
    ensures
        r == ends_with(encode_utf8(whole@), encode_utf8(part@)),
{
    let hay = bytes_of_text(whole);
    let pat = part.as_bytes_vec();
    if pat.len() > hay.len() {
        return false;
    }
    matches_at(&hay, &pat, hay.len() - pat.len())
}

/// What a build makes: where the headers lie, where the libraries lie, and
/// the names of the libraries to link.
#[derive(Debug, PartialEq)]
pub struct Artifacts {
    pub include_dir: String,
    pub lib_dir: String,
    pub libs: Vec<String>,
}

/// Choices of a build.
#[derive(PartialEq, Eq, Structural, Debug, Clone, Copy)]
pub struct Options {
    pub lua52compat: bool,
}

/// A build of the runtime: where it writes, what it builds for, where it
/// runs, and its choices.
pub struct Build {
    pub out_dir: Option<String>,
    pub target: Option<String>,
    pub host: Option<String>,
    pub options: Options,
}

/// How the runtime is built for a target.
#[derive(PartialEq, Eq, Structural, Debug, Clone, Copy)]
pub enum BuildKind {
    /// With `make` and a C compiler.
    Unix,
    /// With the batch file for the Microsoft compiler.
    Msvc,
}

impl Build {
    /// A build that writes below `out_dir`, for `target`, on `host`, with no
    /// choice made.
    pub fn new(out_dir: Option<String>, target: Option<String>, host: Option<String>) -> (r: Build)
        ensures
            r.out_dir == out_dir,
            r.target == target,
            r.host == host,
            !r.options.lua52compat,
    {
        Build { out_dir, target, host, options: Options { lua52compat: false } }
    }

    /// Sets the directory that the build writes to.
    pub fn out_dir(&mut self, path: String)
        ensures
            final(self).out_dir == Some(path),
            final(self).target == old(self).target,
            final(self).host == old(self).host,
            final(self).options == old(self).options,
    {
        self.out_dir = Some(path);
    }

    /// Sets the target that the build is for.
    pub fn target(&mut self, target: String)
        ensures
            final(self).target == Some(target),
            final(self).out_dir == old(self).out_dir,
            final(self).host == old(self).host,
            final(self).options == old(self).options,
    {
        self.target = Some(target);
    }

    /// Sets the host that the build runs on.
    pub fn host(&mut self, host: String)
        ensures
            final(self).host == Some(host),
            final(self).out_dir == old(self).out_dir,
            final(self).target == old(self).target,
            final(self).options == old(self).options,
    {
        self.host = Some(host);
    }

    /// Chooses whether the runtime is built with the extensions of the later
    /// language version.
    pub fn lua52compat(&mut self, enabled: bool)
        ensures
            final(self).options.lua52compat == enabled,
            final(self).out_dir == old(self).out_dir,
            final(self).target == old(self).target,
            final(self).host == old(self).host,
    {
        self.options.lua52compat = enabled;
    }

    /// The name of the `make` tool on the host: `gmake` on the two hosts
    /// whose own `make` is another tool, `make` everywhere else.
    pub fn cmd_make(&self) -> (r: String)
        requires
            self.host is Some,
        ensures
            r@ == (if self.host->0@ == "x86_64-unknown-dragonfly"@ || self.host->0@
                == "x86_64-unknown-freebsd"@ {
                "gmake"@
            } else {
                "make"@
            }),
    {
        let host = match &self.host {
            Some(h) => h,
            None => {
                return String::new();
            },
        };
        if *host == "x86_64-unknown-dragonfly".to_string() || *host
            == "x86_64-unknown-freebsd".to_string() {
            "gmake".to_string()
        } else {
            "make".to_string()
        }
    }

    /// The way to build for the target: the Microsoft way where the name of
    /// the target holds `msvc`, the Unix way for every other target.
    pub fn kind(&self) -> (r: BuildKind)
        requires
            self.target is Some,
        ensures
            r == (if has_part(encode_utf8(self.target->0@), encode_utf8("msvc"@)) {
                BuildKind::Msvc
            } else {
                BuildKind::Unix
            }),
    {
        match &self.target {
            Some(target) => {
                if contains_text(target, "msvc") {
                    BuildKind::Msvc
                } else {
                    BuildKind::Unix
                }
            },
            None => BuildKind::Unix,
        }
    }

    /// The flags that the C compiler gets beyond its own: position
    /// independent code always, and the switch for the extensions where they
    /// were chosen.
    pub fn xcflags(&self) -> (r: Vec<String>)
        ensures
            r@.len() == (if self.options.lua52compat {
                2int
            } else {
                1int
            }),
            r@[0]@ == "-fPIC"@,
            self.options.lua52compat ==> r@[1]@ == "-DLUAJIT_ENABLE_LUA52COMPAT"@,
    {
        let mut flags: Vec<String> = Vec::new();
        flags.push("-fPIC".to_string());
        if self.options.lua52compat {
            flags.push("-DLUAJIT_ENABLE_LUA52COMPAT".to_string());
        }
        flags
    }

    /// What the build makes: the headers in `include` and the libraries in
    /// `lib` below the directory that the build writes to, and the one
    /// library `lua51` to link.
    pub fn build(&mut self) -> (r: Artifacts)
        requires
            old(self).target is Some,
            old(self).out_dir is Some,
        ensures
            *final(self) == *old(self),
            r.include_dir@ == old(self).out_dir->0@ + "/include"@,
            r.lib_dir@ == old(self).out_dir->0@ + "/lib"@,
            r.libs@.len() == 1,
            r.libs@[0]@ == "lua51"@,
    {
        let base = match &self.out_dir {
            Some(dir) => dir.clone(),
            None => String::new(),
        };
        let mut libs: Vec<String> = Vec::new();
        libs.push("lua51".to_string());
        Artifacts {
            include_dir: base.clone().concat("/include"),
            lib_dir: base.concat("/lib"),
            libs,
        }
    }
}

/// How many bytes of the path of a cross compiler name the family of its
/// tools: all before `gcc` where the path ends with `-gcc`, all before
/// `clang` where it ends with `-clang`, none otherwise.
pub fn tool_prefix_len(compiler_path: &String) -> (r: usize)
    ensures
        r == (if ends_with(encode_utf8(compiler_path@), encode_utf8("-gcc"@)) {
            encode_utf8(compiler_path@).len() - 3
        } else if ends_with(encode_utf8(compiler_path@), encode_utf8("-clang"@)) {
            encode_utf8(compiler_path@).len() - 5
        } else {
            0
        }),
{
    proof {
        reveal_strlit("-gcc");
        reveal_strlit("-clang");
        vstd::string::is_ascii_spec_bytes("-gcc");
        vstd::string::is_ascii_spec_bytes("-clang");
    }
    let len = bytes_of_text(compiler_path).len();
    if ends_with_text(compiler_path, "-gcc") {
        assert(encode_utf8("-gcc"@).len() == 4);
        len - 3
    } else if ends_with_text(compiler_path, "-clang") {
        assert(encode_utf8("-clang"@).len() == 6);
        len - 5
    } else {
        0
    }
}

impl Artifacts {
    /// Where the headers lie.
    pub fn include_dir(&self) -> (r: &String)
        ensures
            *r == self.include_dir,
    {
        &self.include_dir
    }

    /// Where the libraries lie.
    pub fn lib_dir(&self) -> (r: &String)
        ensures
            *r == self.lib_dir,
    {
        &self.lib_dir
    }

    /// The names of the libraries to link.
    pub fn libs(&self) -> (r: &Vec<String>)
        ensures
            *r == self.libs,
    {
        &self.libs
    }

    /// The lines that tell the build tool how to link what was built: six
    /// lines that name the variables on which the build depends, the
    /// directory to search, one line for each library, and the two
    /// directories once more for dependent builds.
    pub fn print_cargo_metadata(&self) -> (r: Vec<String>)
        ensures
            r@.len() == 9 + self.libs@.len(),
            r@[0]@ == "cargo:rerun-if-env-changed=HOST_CC"@,
            r@[1]@ == "cargo:rerun-if-env-changed=STATIC_CC"@,
            r@[2]@ == "cargo:rerun-if-env-changed=TARGET_LD"@,
            r@[3]@ == "cargo:rerun-if-env-changed=TARGET_AR"@,
            r@[4]@ == "cargo:rerun-if-env-changed=TARGET_STRIP"@,
            r@[5]@ == "cargo:rerun-if-env-changed=MACOSX_DEPLOYMENT_TARGET"@,
            r@[6]@ == "cargo:rustc-link-search=native="@ + self.lib_dir@,
            forall|i: int|
                0 <= i < self.libs@.len() ==> (#[trigger] r@[7 + i])@
                    == "cargo:rustc-link-lib=static="@ + self.libs@[i]@,
            r@[7 + self.libs@.len() as int]@ == "cargo:include="@ + self.include_dir@,
            r@[8 + self.libs@.len() as int]@ == "cargo:lib="@ + self.lib_dir@,
    {
        let mut lines: Vec<String> = Vec::new();
        lines.push("cargo:rerun-if-env-changed=HOST_CC".to_string());
        lines.push("cargo:rerun-if-env-changed=STATIC_CC".to_string());
        lines.push("cargo:rerun-if-env-changed=TARGET_LD".to_string());
        lines.push("cargo:rerun-if-env-changed=TARGET_AR".to_string());
        lines.push("cargo:rerun-if-env-changed=TARGET_STRIP".to_string());
        lines.push("cargo:rerun-if-env-changed=MACOSX_DEPLOYMENT_TARGET".to_string());
        lines.push("cargo:rustc-link-search=native=".to_string().concat(self.lib_dir.as_str()));
        let ghost head = lines@;
        let mut i: usize = 0;
        while i < self.libs.len()
            invariant
                i <= self.libs.len(),
                lines@.len() == 7 + i,
                head.len() == 7,
                head[0]@ == "cargo:rerun-if-env-changed=HOST_CC"@,
                head[1]@ == "cargo:rerun-if-env-changed=STATIC_CC"@,
                head[2]@ == "cargo:rerun-if-env-changed=TARGET_LD"@,
                head[3]@ == "cargo:rerun-if-env-changed=TARGET_AR"@,
                head[4]@ == "cargo:rerun-if-env-changed=TARGET_STRIP"@,
                head[5]@ == "cargo:rerun-if-env-changed=MACOSX_DEPLOYMENT_TARGET"@,
                head[6]@ == "cargo:rustc-link-search=native="@ + self.lib_dir@,
                forall|j: int| 0 <= j < 7 ==> lines@[j] == head[j],
                forall|j: int|
                    0 <= j < i ==> (#[trigger] lines@[7 + j])@ == "cargo:rustc-link-lib=static="@
                        + self.libs@[j]@,
            decreases self.libs.len() - i,
        {
            lines.push("cargo:rustc-link-lib=static=".to_string().concat(self.libs[i].as_str()));
            i += 1;
        }
        lines.push("cargo:include=".to_string().concat(self.include_dir.as_str()));
        lines.push("cargo:lib=".to_string().concat(self.lib_dir.as_str()));
        lines
    }
}

} // verus!
