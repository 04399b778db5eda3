use linkage_check::assemble::{determine_linkage, ObservedLibrary};
use linkage_check::classify::{
    classify, homebrew_formula, library_from_apt, library_from_homebrew, needs_canonical,
    package_from_dpkg_output, package_lookup_available, rule_for, tap_package, Rule,
};
use linkage_check::error::LinkageError;
use linkage_check::inspect::{
    dylib_libraries, format_for_target, inspection_for, ldd_libraries, macho_libraries,
    pe_libraries, BinaryFormat, CommandKind,
};
use linkage_check::model::{Bucket, Library, Linkage};
use linkage_check::plan::{plan_linkage_checks, steps_for_target, ArtifactInfo, CheckStep};
use linkage_check::report::{report_linkage, report_rows, report_with_table};

fn observed(path: &str) -> ObservedLibrary {
    ObservedLibrary { path: path.to_string(), canonical: None, receipt: None, dpkg_stdout: None }
}

fn paths(libs: &[Library]) -> Vec<String> {
    libs.iter().map(|l| l.path.clone()).collect()
}

#[test]
fn homebrew_opt_path_without_receipt() {
    let p = "/opt/homebrew/opt/openssl@3/lib/libssl.3.dylib";
    assert_eq!(classify(p, p), Bucket::Homebrew);
    let lib = library_from_homebrew(p.to_string(), None);
    assert_eq!(lib.path, p);
    assert_eq!(lib.source.as_deref(), Some("openssl@3"));
}

#[test]
fn intel_cellar_path_is_homebrew_through_canonical_form() {
    let p = "/usr/local/Cellar/zlib/lib/libz.1.dylib";
    assert!(needs_canonical(p));
    assert_eq!(rule_for(p), Rule::UsrLocal);
    assert_eq!(classify(p, p), Bucket::Homebrew);
    let l = determine_linkage("app".into(), "aarch64-apple-darwin".into(), "macos", &vec![ObservedLibrary {
        canonical: Some(p.to_string()),
        ..observed(p)
    }])
    .unwrap();
    assert_eq!(paths(&l.homebrew), vec![p.to_string()]);
    assert_eq!(l.homebrew[0].source, None);
}

#[test]
fn usr_local_outside_cellar_is_public_unmanaged() {
    let p = "/usr/local/mylib.so";
    assert_eq!(classify(p, p), Bucket::PublicUnmanaged);
    let l = determine_linkage("app".into(), "x86_64-apple-darwin".into(), "macos", &vec![ObservedLibrary {
        canonical: Some(p.to_string()),
        ..observed(p)
    }])
    .unwrap();
    assert_eq!(paths(&l.public_unmanaged), vec![p.to_string()]);
    assert_eq!(l.public_unmanaged[0].source, None);
    assert!(l.homebrew.is_empty() && l.system.is_empty() && l.other.is_empty() && l.frameworks.is_empty());
}

#[test]
fn cellar_prefix_is_matched_by_whole_components() {
    assert_eq!(classify("/usr/local/lib/libx.dylib", "/usr/local/Cellarx/libx.dylib"), Bucket::PublicUnmanaged);
    assert_eq!(classify("/usr/local/lib/libx.dylib", "/usr/local/Cellar"), Bucket::Homebrew);
}

#[test]
fn linux_target_on_other_host_is_refused_before_running_anything() {
    match inspection_for("x86_64-unknown-linux-gnu", "macos") {
        Err(LinkageError::InvalidOs { host, target }) => {
            assert_eq!(host, "macos");
            assert_eq!(target, "x86_64-unknown-linux-gnu");
        }
        other => panic!("unexpected {:?}", other),
    }
    assert!(matches!(inspection_for("x86_64-unknown-linux-gnu", "linux"), Ok(BinaryFormat::Elf)));
    assert!(matches!(inspection_for("aarch64-apple-darwin", "linux"), Ok(BinaryFormat::MachO)));
    assert!(matches!(inspection_for("x86_64-pc-windows-msvc", "macos"), Ok(BinaryFormat::Pe)));
    assert!(matches!(inspection_for("riscv64gc-unknown-linux-gnu", "linux"), Err(LinkageError::UnsupportedBinary)));
}

#[test]
fn target_formats() {
    assert_eq!(format_for_target("i686-apple-darwin"), Some(BinaryFormat::MachO));
    assert_eq!(format_for_target("aarch64-unknown-linux-musl"), Some(BinaryFormat::Elf));
    assert_eq!(format_for_target("aarch64-pc-windows-msvc"), Some(BinaryFormat::Pe));
    assert_eq!(format_for_target("x86_64-pc-windows-gnu"), None);
    assert_eq!(format_for_target(""), None);
}

fn artifact(id: &str, targets: &[&str], bins: &[&str]) -> ArtifactInfo {
    ArtifactInfo {
        id: id.to_string(),
        target_triples: targets.iter().map(|s| s.to_string()).collect(),
        required_binaries: bins.iter().map(|s| s.to_string()).collect(),
    }
}

#[test]
fn target_without_artifact_gives_only_a_notice() {
    let arts = vec![artifact("tool", &["x86_64-apple-darwin"], &["tool"])];
    let steps = steps_for_target("aarch64-pc-windows-msvc", &arts);
    assert_eq!(steps.len(), 1);
    assert!(matches!(&steps[0], CheckStep::NoArtifact { target } if target == "aarch64-pc-windows-msvc"));
    let plan = plan_linkage_checks(
        &vec!["aarch64-pc-windows-msvc".to_string(), "x86_64-apple-darwin".to_string()],
        &arts,
    );
    assert_eq!(plan.len(), 2);
    assert!(matches!(&plan[0], CheckStep::NoArtifact { .. }));
    match &plan[1] {
        CheckStep::Inspect { target, dir, binary } => {
            assert_eq!(target, "x86_64-apple-darwin");
            assert_eq!(dir, "tool-x86_64-apple-darwin");
            assert_eq!(binary, "tool");
        }
        other => panic!("unexpected {:?}", other),
    }
}

#[test]
fn plan_visits_targets_then_artifacts_then_binaries() {
    let arts = vec![
        artifact("a", &["t1", "t2"], &["x", "y"]),
        artifact("b", &["t2"], &["z"]),
    ];
    let plan = plan_linkage_checks(&vec!["t2".to_string(), "t1".to_string()], &arts);
    let got: Vec<(String, String)> = plan
        .iter()
        .map(|s| match s {
            CheckStep::Inspect { dir, binary, .. } => (dir.clone(), binary.clone()),
            CheckStep::NoArtifact { target } => (target.clone(), String::new()),
        })
        .collect();
    let want: Vec<(String, String)> = vec![
        ("a-t2", "x"), ("a-t2", "y"), ("b-t2", "z"), ("a-t1", "x"), ("a-t1", "y"),
    ]
    .into_iter()
    .map(|(a, b)| (a.to_string(), b.to_string()))
    .collect();
    assert_eq!(got, want);
}

#[test]
fn statically_linked_ldd_output_is_empty() {
    assert!(ldd_libraries("\tstatically linked\n").is_empty());
    assert!(ldd_libraries("\tnot a dynamic executable\n").is_empty());
}

#[test]
fn ldd_output_is_parsed_line_by_line() {
    let out = "\tlinux-vdso.so.1 (0x00007ffd5b1f2000)\n\
               \tlibgcc_s.so.1 => /lib/x86_64-linux-gnu/libgcc_s.so.1 (0x00007f0c1a000000)\n\
               \tlibc.so.6 => /lib/x86_64-linux-gnu/libc.so.6 (0x00007f0c19e00000)\n\
               \t/lib64/ld-linux-x86-64.so.2 (0x00007f0c1a0f0000)\n\n";
    assert_eq!(
        ldd_libraries(out),
        vec!["/lib/x86_64-linux-gnu/libgcc_s.so.1".to_string(), "/lib/x86_64-linux-gnu/libc.so.6".to_string()]
    );
    let stopped = "\tlibm.so.6 => /lib/libm.so.6 (0x1)\nstatically linked\n\tlibz.so => /lib/libz.so (0x2)\n";
    assert_eq!(ldd_libraries(stopped), vec!["/lib/libm.so.6".to_string()]);
    assert_eq!(ldd_libraries("\tlibq.so => /opt/q/libq.so\n"), vec!["/opt/q/libq.so".to_string()]);
    assert!(ldd_libraries("").is_empty());
}

#[test]
fn non_macho_bytes_give_no_libraries() {
    assert!(macho_libraries(b"definitely not a mach-o file").is_empty());
    assert!(macho_libraries(&[]).is_empty());
}

#[test]
fn dylib_commands_are_kept_in_order() {
    let cmds = vec![
        (CommandKind::IdDylib, "@rpath/libself.dylib".to_string()),
        (CommandKind::Other, String::new()),
        (CommandKind::LoadDylib, "/usr/lib/libSystem.B.dylib".to_string()),
        (CommandKind::LoadWeakDylib, "/usr/lib/libweak.dylib".to_string()),
        (CommandKind::ReexportDylib, "/usr/lib/libre.dylib".to_string()),
        (CommandKind::LoadUpwardDylib, "/usr/lib/libup.dylib".to_string()),
        (CommandKind::LazyLoadDylib, "/usr/lib/liblazy.dylib".to_string()),
    ];
    let names = dylib_libraries(cmds);
    assert_eq!(names.len(), 6);
    assert_eq!(names[0], "@rpath/libself.dylib");
    assert_eq!(names[5], "/usr/lib/liblazy.dylib");
}

#[test]
fn pe_errors() {
    assert!(matches!(pe_libraries(b"MZ"), Err(LinkageError::Object(_))));
    assert!(matches!(pe_libraries(&[0u8; 64]), Err(LinkageError::UnsupportedBinary)));
}

#[test]
fn rules_are_checked_in_order_on_the_literal_path() {
    let p = "/usr/local/Cellar/qt/lib/QtCore.framework/QtCore";
    assert_eq!(classify(p, p), Bucket::Homebrew);
    assert_eq!(classify("/System/Library/Frameworks/Foundation.framework/Foundation", "/x"), Bucket::Frameworks);
    assert_eq!(classify("/Library/Frameworks/Foo.framework/Foo", "/x"), Bucket::Frameworks);
    assert_eq!(classify("/usr/lib/libSystem.B.dylib", "/usr/local/Cellar/x"), Bucket::System);
    assert_eq!(classify("/lib/libc.so.6", "/lib/libc.so.6"), Bucket::System);
    assert_eq!(classify("/opt/homebrew/lib/libfoo.dylib", "/x"), Bucket::Homebrew);
    assert_eq!(classify("/nix/store/abc/lib/libz.so", "/nix/store/abc/lib/libz.so"), Bucket::Other);
    assert_eq!(classify("@rpath/libfoo.dylib", "@rpath/libfoo.dylib"), Bucket::Other);
    assert!(!needs_canonical("/usr/lib/libz.dylib"));
}

#[test]
fn classifying_twice_gives_the_same_answer() {
    let p = "/opt/homebrew/opt/openssl@3/lib/libssl.3.dylib";
    assert_eq!(classify(p, p), classify(p, p));
    let a = library_from_homebrew(p.to_string(), None);
    let b = library_from_homebrew(p.to_string(), None);
    assert_eq!(a.source, b.source);
    let l = determine_linkage("app".into(), "aarch64-apple-darwin".into(), "macos", &vec![observed(p), observed(p)]).unwrap();
    assert_eq!(l.homebrew.len(), 1);
}

#[test]
fn every_path_lands_in_one_bucket() {
    let obs = vec![
        observed("/usr/lib/libSystem.B.dylib"),
        observed("/System/Library/Frameworks/Security.framework/Security"),
        observed("/opt/homebrew/opt/libgit2/lib/libgit2.dylib"),
        ObservedLibrary { canonical: Some("/usr/local/lib/libfoo.dylib".into()), ..observed("/usr/local/lib/libfoo.dylib") },
        observed("@rpath/libbar.dylib"),
    ];
    let l = determine_linkage("app".into(), "aarch64-apple-darwin".into(), "macos", &obs).unwrap();
    assert_eq!(l.binary.as_deref(), Some("app"));
    assert_eq!(l.target.as_deref(), Some("aarch64-apple-darwin"));
    assert_eq!(paths(&l.system), vec!["/usr/lib/libSystem.B.dylib".to_string()]);
    assert_eq!(paths(&l.frameworks), vec!["/System/Library/Frameworks/Security.framework/Security".to_string()]);
    assert_eq!(paths(&l.homebrew), vec!["/opt/homebrew/opt/libgit2/lib/libgit2.dylib".to_string()]);
    assert_eq!(l.homebrew[0].source.as_deref(), Some("libgit2"));
    assert_eq!(paths(&l.public_unmanaged), vec!["/usr/local/lib/libfoo.dylib".to_string()]);
    assert_eq!(paths(&l.other), vec!["@rpath/libbar.dylib".to_string()]);
    assert_eq!(l.system[0].source, None);
}

#[test]
fn dpkg_answers_are_used_on_linux() {
    let mut o = observed("/lib/x86_64-linux-gnu/libc.so.6");
    o.dpkg_stdout = Some(b"libc6:amd64: /lib/x86_64-linux-gnu/libc.so.6\n".to_vec());
    let l = determine_linkage("app".into(), "x86_64-unknown-linux-gnu".into(), "linux", &vec![o.clone()]).unwrap();
    assert_eq!(l.system[0].source.as_deref(), Some("libc6"));
    let l = determine_linkage("app".into(), "x86_64-apple-darwin".into(), "macos", &vec![o.clone()]).unwrap();
    assert_eq!(l.system[0].source, None);
    o.dpkg_stdout = Some(vec![0xff, 0xfe]);
    let l = determine_linkage("app".into(), "x86_64-unknown-linux-gnu".into(), "linux", &vec![o]).unwrap();
    assert_eq!(l.system[0].source, None);
}

#[test]
fn apt_library() {
    let lib = library_from_apt("/usr/lib/libz.so".into(), "linux", Some(b"zlib1g:amd64: /usr/lib/libz.so"));
    assert_eq!(lib.source.as_deref(), Some("zlib1g"));
    assert_eq!(lib.path, "/usr/lib/libz.so");
    let lib = library_from_apt("/usr/lib/libz.so".into(), "linux", Some(b""));
    assert_eq!(lib.source, None);
    let lib = library_from_apt("/usr/lib/libz.so".into(), "linux", None);
    assert_eq!(lib.source, None);
    let lib = library_from_apt("/usr/lib/libz.so".into(), "windows", Some(b"zlib1g: x"));
    assert_eq!(lib.source, None);
    let lib = library_from_apt("/x".into(), "linux", Some(&[0xc3]));
    assert_eq!((lib.path.as_str(), lib.source), ("/x", None));
    assert!(package_lookup_available("linux"));
    assert!(!package_lookup_available("macos"));
}

#[test]
fn dpkg_output_first_field() {
    assert_eq!(package_from_dpkg_output("libc6:amd64: /lib/libc.so.6\n").as_deref(), Some("libc6"));
    assert_eq!(package_from_dpkg_output("nocolon").as_deref(), Some("nocolon"));
    assert_eq!(package_from_dpkg_output(":x"), None);
    assert_eq!(package_from_dpkg_output(""), None);
}

#[test]
fn tap_qualification() {
    assert_eq!(tap_package("openssl@3", Some("homebrew/core")), "openssl@3");
    assert_eq!(tap_package("tool", Some("acme/tools")), "acme/tools/tool");
    assert_eq!(tap_package("tool", None), "tool");
}

#[test]
fn install_receipt_gives_the_tap() {
    let p = "/usr/local/opt/tool/lib/libtool.dylib";
    let lib = library_from_homebrew(p.into(), Some(r#"{"source":{"tap":"acme/tools"}}"#));
    assert_eq!(lib.source.as_deref(), Some("acme/tools/tool"));
    let lib = library_from_homebrew(p.into(), Some(r#"{"source":{"tap":"homebrew/core"}}"#));
    assert_eq!(lib.source.as_deref(), Some("tool"));
    let lib = library_from_homebrew(p.into(), Some("not json"));
    assert_eq!(lib.source.as_deref(), Some("tool"));
    let lib = library_from_homebrew("/opt/homebrew/lib/libx.dylib".into(), Some(r#"{"source":{"tap":"a/b"}}"#));
    assert_eq!(lib.source, None);
}

#[test]
fn formula_location() {
    let f = homebrew_formula("/opt/homebrew/opt/openssl@3/lib/libssl.3.dylib").unwrap();
    assert_eq!(f.prefix, "/opt/homebrew/opt/");
    assert_eq!(f.package, "openssl@3");
    assert!(homebrew_formula("/usr/local/Cellar/zlib/lib/libz.dylib").is_none());
}

#[test]
fn library_display() {
    let mut l = Library::new("/usr/lib/libz.so".into());
    assert_eq!(l.display(), "/usr/lib/libz.so");
    l.source = Some("zlib1g".into());
    assert_eq!(l.display(), "/usr/lib/libz.so (zlib1g)");
}

#[test]
fn report_rows_and_heading() {
    let mut l = Linkage::new(Some("app".into()), Some("x86_64-unknown-linux-gnu".into()));
    l.insert(Bucket::System, Library { path: "/lib/libc.so.6".into(), source: Some("libc6".into()) });
    l.insert(Bucket::System, Library::new("/lib/libm.so.6".into()));
    l.insert(Bucket::PublicUnmanaged, Library { path: "/usr/local/lib/libq.so".into(), source: Some("q".into()) });
    let rows = report_rows(&l);
    assert_eq!(rows[0], ("System".to_string(), "/lib/libc.so.6 (libc6)\n/lib/libm.so.6".to_string()));
    assert_eq!(rows[1], ("Homebrew".to_string(), String::new()));
    assert_eq!(rows[2], ("Public (unmanaged)".to_string(), "/usr/local/lib/libq.so".to_string()));
    assert_eq!(rows[3].0, "Frameworks");
    assert_eq!(rows[4].0, "Other");
    assert_eq!(report_with_table(&l, "T"), "app (x86_64-unknown-linux-gnu):\n\nT");
    let text = report_linkage(&l);
    assert!(text.starts_with("app (x86_64-unknown-linux-gnu):\n\n"));
    assert!(text.contains("Category") && text.contains("Libraries") && text.contains("/lib/libc.so.6 (libc6)"));
    let bare = Linkage::new(None, Some("t".into()));
    assert_eq!(report_with_table(&bare, "T"), "T");
}

#[test]
fn insert_keeps_one_library_per_path() {
    let mut l = Linkage::new(None, None);
    l.insert(Bucket::Other, Library::new("/a".into()));
    l.insert(Bucket::Other, Library { path: "/a".into(), source: Some("p".into()) });
    assert_eq!(l.other.len(), 1);
    assert_eq!(l.other[0].source, None);
}

fn le32(v: u32) -> [u8; 4] {
    v.to_le_bytes()
}

#[test]
fn macho_load_commands_are_read() {
    let name = b"/usr/lib/libSystem.B.dylib\0";
    let cmdsize: u32 = 56;
    let mut b: Vec<u8> = vec![];
    for v in [0xfeedfacf_u32, 0x0100_0007, 3, 2, 1, cmdsize, 0, 0] {
        b.extend_from_slice(&le32(v));
    }
    for v in [0xc_u32, cmdsize, 24, 2, 0x0001_0000, 0x0001_0000] {
        b.extend_from_slice(&le32(v));
    }
    b.extend_from_slice(name);
    b.resize(32 + cmdsize as usize, 0);
    assert_eq!(macho_libraries(&b), vec!["/usr/lib/libSystem.B.dylib".to_string()]);
}

#[test]
fn determine_linkage_checks_the_target_first() {
    let obs = vec![observed("/usr/lib/libz.so")];
    match determine_linkage("app".into(), "x86_64-unknown-linux-gnu".into(), "macos", &obs) {
        Err(LinkageError::InvalidOs { host, target }) => {
            assert_eq!(host, "macos");
            assert_eq!(target, "x86_64-unknown-linux-gnu");
        }
        other => panic!("unexpected {:?}", other),
    }
    assert!(matches!(
        determine_linkage("app".into(), "wasm32-unknown-unknown".into(), "linux", &obs),
        Err(LinkageError::UnsupportedBinary)
    ));
    assert!(matches!(determine_linkage("app".into(), "".into(), "linux", &vec![]), Err(LinkageError::UnsupportedBinary)));
    assert!(determine_linkage("app".into(), "x86_64-pc-windows-msvc".into(), "macos", &obs).is_ok());
    assert!(determine_linkage("app".into(), "aarch64-unknown-linux-musl".into(), "linux", &obs).is_ok());
}

fn one_command_image(cmd: u32, off: u32) -> Vec<u8> {
    let cmdsize: u32 = 56;
    let mut b: Vec<u8> = vec![];
    for v in [0xfeedfacf_u32, 0x0100_0007, 3, 2, 1, cmdsize, 0, 0] {
        b.extend_from_slice(&le32(v));
    }
    for v in [cmd, cmdsize, off, 2, 0x0001_0000, 0x0001_0000] {
        b.extend_from_slice(&le32(v));
    }
    b.extend_from_slice(b"/usr/lib/libSystem.B.dylib\0");
    b.resize(32 + cmdsize as usize, 0);
    b
}

#[test]
fn malformed_macho_tables_give_no_libraries() {
    assert_eq!(macho_libraries(&one_command_image(0xc, 24)).len(), 1);
    assert!(macho_libraries(&one_command_image(0xc, 8)).is_empty());
    assert!(macho_libraries(&one_command_image(0xc, 57)).is_empty());
    assert!(macho_libraries(&one_command_image(0xe, 4)).is_empty());
    assert!(macho_libraries(&one_command_image(0x8000001c, 200)).is_empty());
    let mut short = one_command_image(0xc, 24);
    short.truncate(60);
    assert!(macho_libraries(&short).is_empty());
}

#[test]
fn receipt_with_byte_order_mark() {
    let p = "/opt/homebrew/opt/tool/lib/libtool.dylib";
    let lib = library_from_homebrew(p.into(), Some("\u{FEFF}{\"source\":{\"tap\":\"acme/tools\"}}"));
    assert_eq!(lib.source.as_deref(), Some("acme/tools/tool"));
}

#[test]
fn pe_needs_the_dos_magic() {
    assert!(matches!(pe_libraries(b"\x7fELF\x02\x01\x01\x00\x00\x00\x00\x00\x00\x00\x00\x00"), Err(LinkageError::UnsupportedBinary)));
    assert!(matches!(pe_libraries(b""), Err(LinkageError::UnsupportedBinary)));
}

#[test]
fn a_path_seen_twice_stays_in_its_first_bucket() {
    let p = "/usr/local/lib/libz.dylib";
    let obs = vec![
        ObservedLibrary { canonical: Some("/usr/local/Cellar/zlib/lib/libz.dylib".into()), ..observed(p) },
        ObservedLibrary { canonical: Some(p.into()), ..observed(p) },
    ];
    let l = determine_linkage("app".into(), "x86_64-apple-darwin".into(), "macos", &obs).unwrap();
    assert_eq!(paths(&l.homebrew), vec![p.to_string()]);
    assert!(l.public_unmanaged.is_empty());
}
