use hclua::config::{Config, ConfigAttrib};
use hclua::luajit_build::{contains_text, ends_with_text, tool_prefix_len, Build, BuildKind};
use hclua::mem::{AllocAction, MemLimit};
use hclua::text::{bytes_of_text, decimal, text_from_bytes};
use hclua::{WrapObject, WrapSerde, WrapperObject};

fn s(text: &str) -> String {
    text.to_string()
}

#[test]
fn decimal_writes_numbers() {
    assert_eq!(decimal(0), "0");
    assert_eq!(decimal(7), "7");
    assert_eq!(decimal(10), "10");
    assert_eq!(decimal(-1), "-1");
    assert_eq!(decimal(1234567890), "1234567890");
    assert_eq!(decimal(i64::MAX), "9223372036854775807");
    assert_eq!(decimal(i64::MIN), "-9223372036854775808");
}

#[test]
fn text_and_bytes() {
    assert_eq!(text_from_bytes(vec![104, 105]), Ok(s("hi")));
    assert_eq!(text_from_bytes(vec![0xe2, 0x82, 0xac]), Ok(s("€")));
    assert_eq!(text_from_bytes(vec![0xe2, 0x82]), Err(vec![0xe2, 0x82]));
    assert_eq!(text_from_bytes(vec![0xc0, 0x80]), Err(vec![0xc0, 0x80]));
    assert_eq!(text_from_bytes(vec![0xed, 0xa0, 0x80]), Err(vec![0xed, 0xa0, 0x80]));
    assert_eq!(text_from_bytes(vec![]), Ok(s("")));
    assert_eq!(bytes_of_text(&s("€")), vec![0xe2, 0x82, 0xac]);
}

#[test]
fn memory_is_counted_and_refused() {
    let mut mem = MemLimit::new(2000, Some(s("vm")));
    assert_eq!((mem.mem, mem.mem_limit, mem.mem_report), (0, 2000, 1024));
    assert_eq!(mem.lalloc(true, 0, 1000), AllocAction::Resize);
    assert_eq!((mem.mem, mem.mem_report), (1000, 1024));
    // over the report mark, within the limit: granted, and the mark doubles
    assert_eq!(mem.lalloc(true, 0, 100), AllocAction::Resize);
    assert_eq!((mem.mem, mem.mem_report), (1100, 2048));
    // within the mark: granted, though over the limit
    assert_eq!(mem.lalloc(true, 0, 940), AllocAction::Resize);
    assert_eq!((mem.mem, mem.mem_report), (2040, 2048));
    // over the mark and the limit: refused, and the count stays as counted
    assert_eq!(mem.lalloc(true, 0, 10), AllocAction::Refuse);
    assert_eq!((mem.mem, mem.mem_report), (2050, 2048));
    // a shrinking block is never refused
    assert_eq!(mem.lalloc(false, 100, 50), AllocAction::Resize);
    assert_eq!((mem.mem, mem.mem_report), (2000, 2048));
    assert_eq!(mem.lalloc(false, 50, 0), AllocAction::Release);
    assert_eq!(mem.mem, 1950);
    assert_eq!(mem.lalloc(true, 50, 0), AllocAction::Release);
    assert_eq!(mem.mem, 1950);
    assert_eq!(mem.name, Some(s("vm")));
}

#[test]
fn memory_count_saturates() {
    let mut mem = MemLimit::new(usize::MAX, None);
    assert_eq!(mem.mem_limit, -1);
    mem.mem = isize::MAX - 1;
    mem.mem_report = isize::MAX;
    assert_eq!(mem.lalloc(false, 0, 10), AllocAction::Resize);
    assert_eq!(mem.mem, isize::MAX);
    mem.mem_report = isize::MAX - 1;
    mem.mem_limit = isize::MAX;
    assert_eq!(mem.lalloc(false, 0, 10), AllocAction::Resize);
    assert_eq!(mem.mem_report, isize::MAX);
}

#[test]
fn config_is_read_from_options() {
    assert_eq!(ConfigAttrib::from_option(&s("light"), None), Ok(ConfigAttrib::Light));
    assert_eq!(
        ConfigAttrib::from_option(&s("name"), Some(s("Pt"))),
        Ok(ConfigAttrib::Name(s("Pt")))
    );
    assert_eq!(
        ConfigAttrib::from_option(&s("heavy"), None),
        Err(s("unrecognized config option 'heavy'"))
    );
    assert_eq!(
        ConfigAttrib::from_option(&s("name"), None),
        Err(s("unrecognized config option 'name'"))
    );
    let attribs = vec![
        ConfigAttrib::Name(s("First")),
        ConfigAttrib::Light,
        ConfigAttrib::Name(s("Second")),
    ];
    assert_eq!(
        Config::parse_from_attributes(s("Point"), &attribs),
        Config { name: s("Second"), light: true }
    );
    assert_eq!(
        Config::parse_from_attributes(s("Point"), &vec![]),
        Config { name: s("Point"), light: false }
    );
    assert_eq!(Config::default(), Config { name: s(""), light: false });
}

#[test]
fn build_is_planned() {
    let mut build = Build::new(None, None, None);
    build.out_dir(s("/tmp/out"));
    build.target(s("x86_64-unknown-linux-gnu"));
    build.host(s("x86_64-unknown-freebsd"));
    assert_eq!(build.kind(), BuildKind::Unix);
    assert_eq!(build.cmd_make(), "gmake");
    assert_eq!(build.xcflags(), vec![s("-fPIC")]);
    build.lua52compat(true);
    assert_eq!(build.xcflags(), vec![s("-fPIC"), s("-DLUAJIT_ENABLE_LUA52COMPAT")]);
    let artifacts = build.build();
    assert_eq!(artifacts.include_dir(), "/tmp/out/include");
    assert_eq!(artifacts.lib_dir(), "/tmp/out/lib");
    assert_eq!(artifacts.libs(), &vec![s("lua51")]);
    build.target(s("x86_64-pc-windows-msvc"));
    build.host(s("x86_64-pc-windows-msvc"));
    assert_eq!(build.kind(), BuildKind::Msvc);
    assert_eq!(build.cmd_make(), "make");
    build.host(s("x86_64-unknown-dragonfly"));
    assert_eq!(build.cmd_make(), "gmake");
}

#[test]
fn texts_are_searched() {
    assert!(contains_text(&s("abcmsvc"), "msvc"));
    assert!(contains_text(&s("msvc-x"), "msvc"));
    assert!(contains_text(&s("x"), ""));
    assert!(!contains_text(&s("msv"), "msvc"));
    assert!(!contains_text(&s("m-s-v-c"), "msvc"));
    assert!(ends_with_text(&s("arm-gcc"), "-gcc"));
    assert!(!ends_with_text(&s("gcc"), "-gcc"));
    assert_eq!(tool_prefix_len(&s("arm-linux-gcc")), 10);
    assert_eq!(tool_prefix_len(&s("arm-linux-clang")), 10);
    assert_eq!(tool_prefix_len(&s("cc")), 0);
    assert_eq!(tool_prefix_len(&s("-gcc")), 1);
}

#[test]
fn wrappers_hold_their_values() {
    assert_eq!(WrapSerde::new(5).value, 5);
    assert_eq!(WrapObject(s("o")).0, "o");
    assert_eq!(WrapperObject(1u8).0, 1);
}

#[test]
fn link_lines_are_written() {
    let mut build = Build::new(Some(s("/o")), Some(s("t")), Some(s("h")));
    let artifacts = build.build();
    assert_eq!(
        artifacts.print_cargo_metadata(),
        vec![
            s("cargo:rerun-if-env-changed=HOST_CC"),
            s("cargo:rerun-if-env-changed=STATIC_CC"),
            s("cargo:rerun-if-env-changed=TARGET_LD"),
            s("cargo:rerun-if-env-changed=TARGET_AR"),
            s("cargo:rerun-if-env-changed=TARGET_STRIP"),
            s("cargo:rerun-if-env-changed=MACOSX_DEPLOYMENT_TARGET"),
            s("cargo:rustc-link-search=native=/o/lib"),
            s("cargo:rustc-link-lib=static=lua51"),
            s("cargo:include=/o/include"),
            s("cargo:lib=/o/lib"),
        ]
    );
}

#[test]
fn build_is_planned_without_a_host() {
    let mut build = Build::new(None, None, None);
    build.out_dir(s("out"));
    build.target(s("x86_64-pc-windows-msvc"));
    let artifacts = build.build();
    assert_eq!(artifacts.include_dir(), "out/include");
    assert_eq!(artifacts.lib_dir(), "out/lib");
    assert_eq!(artifacts.libs(), &vec![s("lua51")]);
}
