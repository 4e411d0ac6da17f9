use vix::exec::{
    describe, role_embedded_paths, role_env_paths, role_input_paths, role_output_dir_paths,
    role_output_paths, role_search_dir_paths, role_stdout_paths, verify, ExecCache, ExecEvent,
    ExecPlan, FakeAr, FakeBuildScript, FakeCc, FakeRustc, Mount, MountedWorld, ObservedWorld,
    Blake3Hash, ReadObservation, Role, Snapshot, Tree,
};

fn plan(argv: &[(&str, Role)]) -> ExecPlan {
    ExecPlan { argv: argv.iter().map(|(a, r)| (a.to_string(), *r)).collect() }
}

fn mount(at: &str, entries: &[(&str, &str)]) -> Mount {
    Mount { at: at.to_string(), tree: Tree::of(entries) }
}

fn text(tree: &Tree, path: &str) -> Option<String> {
    tree.entries.get_str(path).cloned()
}

#[test]
fn tree_of_reads_back_text_as_bytes() {
    let tree = Tree::of(&[("a.txt", "alpha"), ("b.txt", "beta")]);
    assert_eq!(tree.bytes("a.txt"), Some(b"alpha".to_vec()));
    assert_eq!(tree.bytes("b.txt"), Some(b"beta".to_vec()));
    assert_eq!(tree.bytes("c.txt"), None);
}

#[test]
fn tree_of_last_pair_wins() {
    let tree = Tree::of(&[("a", "first"), ("a", "second")]);
    assert_eq!(text(&tree, "a"), Some("second".to_string()));
    assert_eq!(tree.entries.len(), 1);
}

#[test]
fn tree_insert_bytes_splits_text_and_blobs() {
    let mut tree = Tree::empty();
    tree.insert_bytes("text.txt", b"hello".to_vec());
    tree.insert_bytes("binary.bin", vec![0xff, 0x00]);
    assert_eq!(text(&tree, "text.txt"), Some("hello".to_string()));
    assert_eq!(tree.blobs.get_str("binary.bin").cloned(), Some(vec![0xff, 0x00]));
    assert_eq!(tree.bytes("text.txt"), Some(b"hello".to_vec()));
    assert_eq!(tree.bytes("binary.bin"), Some(vec![0xff, 0x00]));
}

#[test]
fn tree_blob_wins_over_text_at_the_same_path() {
    let mut tree = Tree::of_blobs(&[("x", &[0xfe][..])]);
    tree.insert_bytes("x", b"plain".to_vec());
    assert_eq!(tree.bytes("x"), Some(vec![0xfe]));
}

#[test]
fn display_entries_sorts_and_labels_blobs() {
    let mut tree = Tree::of(&[("b.txt", "bee"), ("d.txt", "dee")]);
    tree.insert_bytes("c.bin", vec![0xff, 0xfe, 0xfd]);
    assert_eq!(
        tree.display_entries(),
        vec![
            ("b.txt".to_string(), "bee".to_string()),
            ("c.bin".to_string(), "<blob:3 bytes>".to_string()),
            ("d.txt".to_string(), "dee".to_string()),
        ]
    );
}

#[test]
fn fingerprint_changes_with_any_content() {
    let a = Tree::of(&[("x", "1")]);
    let b = Tree::of(&[("x", "1")]);
    let c = Tree::of(&[("x", "2")]);
    let d = Tree::of_blobs(&[("x", &b"1"[..])]);
    assert_eq!(a.fingerprint(), b.fingerprint());
    assert_ne!(a.fingerprint(), c.fingerprint());
    assert_ne!(a.fingerprint(), d.fingerprint());
}

#[test]
fn role_paths_follow_the_role() {
    assert_eq!(role_input_paths("x.c", Role::Input), vec!["x.c".to_string()]);
    assert_eq!(role_input_paths("./tool", Role::Executable), vec!["./tool".to_string()]);
    assert_eq!(role_input_paths("--extern=foo=dep/libfoo.rlib", Role::InputFlag), vec!["dep/libfoo.rlib".to_string()]);
    assert_eq!(role_input_paths("--flag=", Role::InputFlag), Vec::<String>::new());
    assert_eq!(role_input_paths("x.c", Role::Flag), Vec::<String>::new());
    assert_eq!(role_output_paths("x.o", Role::Output), vec!["x.o".to_string()]);
    assert_eq!(
        role_output_paths("--emit=link=out/a.rlib,metadata=out/a.rmeta,dep-info", Role::OutputFlag),
        vec!["out/a.rlib".to_string(), "out/a.rmeta".to_string()]
    );
    assert_eq!(role_output_paths("-o", Role::OutputFlag), Vec::<String>::new());
    assert_eq!(role_output_dir_paths("out/", Role::OutputDir), vec!["out/".to_string()]);
    assert_eq!(role_stdout_paths("log", Role::Stdout), vec!["log".to_string()]);
    assert_eq!(role_env_paths("OUT_DIR=build/out", Role::Env), vec!["build/out".to_string()]);
    assert_eq!(role_search_dir_paths("inc", Role::SearchDir), vec!["inc".to_string()]);
    assert_eq!(role_search_dir_paths("-Ldependency=deps", Role::SearchDirFlag), vec!["deps".to_string()]);
    assert_eq!(role_embedded_paths("OUT_DIR=o", Role::Env), vec!["o".to_string()]);
    assert_eq!(role_embedded_paths("x.c", Role::Input), vec!["x.c".to_string()]);
}

#[test]
fn normalized_gathers_commuting_flags_after_the_rest() {
    let p = plan(&[
        ("-Wall", Role::Flag),
        ("-c", Role::Flag),
        ("x.c", Role::Input),
        ("-O2", Role::Flag),
        ("-o", Role::Flag),
        ("x.o", Role::Output),
    ]);
    let n = p.normalized();
    let args: Vec<&str> = n.argv.iter().map(|(a, _)| a.as_str()).collect();
    assert_eq!(args, vec!["-c", "x.c", "-o", "x.o", "-O2", "-Wall"]);
    assert_eq!(n.argv[4].1, Role::Flag);
    assert_eq!(n.argv[5].1, Role::Flag);
}

#[test]
fn equivalent_invocations_share_cache_identity() {
    // `cc -c x.c -O2` and `cc -O2 -c x.c`.
    let a = plan(&[("-c", Role::Flag), ("x.c", Role::Input), ("-O2", Role::Flag)]);
    let b = plan(&[("-O2", Role::Flag), ("-c", Role::Flag), ("x.c", Role::Input)]);
    assert_ne!(a.hash(), b.hash());
    assert_eq!(a.normalized().argv, b.normalized().argv);
    assert_eq!(a.identity_hash(), b.identity_hash());
    assert_eq!(a.identity_hash(), a.normalized().hash());
}

#[test]
fn normalized_keeps_owned_arguments_in_place() {
    let p = plan(&[("-I", Role::Flag), ("-Dz", Role::Flag), ("-Da", Role::Flag)]);
    let args: Vec<String> = p.normalized().argv.into_iter().map(|(a, _)| a).collect();
    assert_eq!(args, vec!["-I".to_string(), "-Dz".to_string(), "-Da".to_string()]);
}

#[test]
fn reordered_flags_share_identity_but_not_hash() {
    let a = plan(&[("-O2", Role::Flag), ("-c", Role::Flag), ("-Wall", Role::Flag), ("x.c", Role::Input)]);
    let b = plan(&[("-Wall", Role::Flag), ("-c", Role::Flag), ("-O2", Role::Flag), ("x.c", Role::Input)]);
    assert_ne!(a.hash(), b.hash());
    assert_eq!(a.identity_hash(), b.identity_hash());
    assert_eq!(a.identity_hash(), a.normalized().hash());
}

#[test]
fn describe_compile_lists_modifiers() {
    let p = plan(&[
        ("-c", Role::Flag),
        ("src/x.c", Role::Input),
        ("-O2", Role::Flag),
        ("-Wall", Role::Flag),
        ("-DNDEBUG", Role::Flag),
        ("inc", Role::SearchDir),
        ("-o", Role::Flag),
        ("out/x.o", Role::Output),
    ]);
    assert_eq!(
        describe("cc", &p),
        vec![
            "compile x.c → x.o".to_string(),
            "optimized (-O2), all warnings, defines -DNDEBUG, headers from inc".to_string(),
            "cc -c src/x.c -O2 -Wall -DNDEBUG inc -o out/x.o".to_string(),
        ]
    );
}

#[test]
fn describe_link_and_archive_headlines() {
    let link = plan(&[("a.o", Role::Input), ("b.o", Role::Input), ("-o", Role::Flag), ("app", Role::Output)]);
    assert_eq!(describe("cc", &link), vec!["link a.o + b.o → app".to_string(), "cc a.o b.o -o app".to_string()]);
    let one = plan(&[("rcs", Role::Flag), ("lib.a", Role::Output), ("a.o", Role::Input)]);
    assert_eq!(describe("ar", &one)[0], "archive 1 object → lib.a");
    let none = plan(&[("x", Role::Flag)]);
    assert_eq!(describe("tool", &none), vec!["tool  → ?".to_string(), "tool x".to_string()]);
}

fn cc_plan() -> ExecPlan {
    plan(&[
        ("-c", Role::Flag),
        ("src/main.c", Role::Input),
        ("inc", Role::SearchDir),
        ("-o", Role::Flag),
        ("main.o", Role::Output),
    ])
}

fn cc_mounts(header_in_src: bool, extra: &str) -> Vec<Mount> {
    let mut src = vec![("main.c", "#include \"a.h\"\nint main() { return 0; }\n")];
    if header_in_src {
        src.push(("a.h", "int shadow;\n"));
    }
    src.push(("notes.txt", extra));
    vec![mount("src", &src), mount("inc", &[("a.h", "int a;\n")])]
}

#[test]
fn fake_cc_compiles_and_records_negative_lookups() {
    let mounts = cc_mounts(false, "v1");
    let world = MountedWorld::new(&mounts);
    let mut observed = ObservedWorld::new(&world);
    let tree = vix::exec::Tool::run(&FakeCc, &cc_plan(), &mut observed).expect("cc runs");
    let obj = text(&tree, "main.o").expect("object written");
    assert!(obj.starts_with("obj(") && obj.ends_with(')'));
    assert_eq!(obj.len(), "obj()".len() + 64);
    let reads = observed.into_read_set();
    assert!(matches!(reads.entries.get_str("src/main.c"), Some(ReadObservation::Content(_))));
    assert_eq!(reads.entries.get_str("src/a.h"), Some(&ReadObservation::Absent));
    assert!(matches!(reads.entries.get_str("inc/a.h"), Some(ReadObservation::Content(_))));
    assert_eq!(reads.entries.len(), 3);
}

#[test]
fn fake_cc_reports_missing_header_and_output() {
    let mounts = vec![mount("src", &[("main.c", "#include \"gone.h\"\n")])];
    let mut cache = ExecCache::new();
    assert_eq!(
        cache.exec(&cc_plan(), 0, &mounts, &FakeCc).err(),
        Some("cc: header `gone.h` not found".to_string())
    );
    let no_out = plan(&[("src/main.c", Role::Input)]);
    assert_eq!(cache.exec(&no_out, 0, &mounts, &FakeCc).err(), Some("cc: no output".to_string()));
    let unreadable = plan(&[("elsewhere.c", Role::Input), ("x.o", Role::Output)]);
    assert_eq!(
        cache.exec(&unreadable, 0, &mounts, &FakeCc).err(),
        Some("cc: cannot read `elsewhere.c` (outside the mounts?)".to_string())
    );
    assert!(cache.events.is_empty());
}

#[test]
fn cache_serves_tier1_then_tier2_then_reruns_on_shadowing() {
    let mut cache = ExecCache::default();
    let p = cc_plan();
    let first = cache.exec(&p, 7, &cc_mounts(false, "v1"), &FakeCc).expect("first run");
    assert_eq!(cache.events, vec![ExecEvent::Ran]);

    let again = cache.exec(&p, 7, &cc_mounts(false, "v1"), &FakeCc).expect("tier 1");
    assert_eq!(cache.events.last(), Some(&ExecEvent::Tier1Hit));
    assert_eq!(again.outputs, first.outputs);

    // An unread file changed: the coarse key misses, the read-set still holds.
    let cut = cache.exec(&p, 7, &cc_mounts(false, "v2"), &FakeCc).expect("tier 2");
    assert_eq!(cache.events.last(), Some(&ExecEvent::Tier2Cutoff { verified: 3 }));
    assert_eq!(cut.outputs, first.outputs);

    // Re-pinned under the new coarse key.
    cache.exec(&p, 7, &cc_mounts(false, "v2"), &FakeCc).expect("tier 1 again");
    assert_eq!(cache.events.last(), Some(&ExecEvent::Tier1Hit));

    // A header now shadows the one found before: the recorded absence fails.
    let shadowed = cache.exec(&p, 7, &cc_mounts(true, "v2"), &FakeCc).expect("rerun");
    assert_eq!(cache.events.last(), Some(&ExecEvent::Ran));
    assert_ne!(shadowed.outputs, first.outputs);

    // Another capability is another computation.
    cache.exec(&p, 8, &cc_mounts(false, "v1"), &FakeCc).expect("other capability");
    assert_eq!(cache.events.last(), Some(&ExecEvent::Ran));
    assert_eq!(cache.events.len(), 6);
}

#[test]
fn reordered_flags_hit_the_same_cache_entry() {
    let mut cache = ExecCache::new();
    let mounts = vec![mount("src", &[("x.c", "int x;\n")])];
    let a = plan(&[("-O2", Role::Flag), ("-c", Role::Flag), ("-Wall", Role::Flag), ("src/x.c", Role::Input), ("x.o", Role::Output)]);
    let b = plan(&[("-Wall", Role::Flag), ("-c", Role::Flag), ("-O2", Role::Flag), ("src/x.c", Role::Input), ("x.o", Role::Output)]);
    cache.exec(&a, 0, &mounts, &FakeCc).expect("runs");
    cache.exec(&b, 0, &mounts, &FakeCc).expect("served");
    assert_eq!(cache.events, vec![ExecEvent::Ran, ExecEvent::Tier1Hit]);
}

#[test]
fn lookup_misses_on_an_empty_cache_and_record_ran_pins() {
    let mut cache = ExecCache::new();
    let p = cc_plan();
    let mounts = cc_mounts(false, "v1");
    assert!(cache.lookup(&p, 1, &mounts).is_none());
    assert!(cache.events.is_empty());
    let outcome = cache.exec(&p, 1, &mounts, &FakeCc).expect("runs");
    let mut other = ExecCache::new();
    other.record_ran(&p, 1, &mounts, outcome.copy());
    let hit = other.lookup(&p, 1, &mounts).expect("pinned");
    assert_eq!(hit.outputs, outcome.outputs);
    assert_eq!(other.events, vec![ExecEvent::Ran, ExecEvent::Tier1Hit]);
}

#[test]
fn verify_checks_content_absence_and_listing() {
    let mounts = vec![mount("d", &[("a", "A"), ("b", "B")])];
    let world = MountedWorld::new(&mounts);
    let mut observed = ObservedWorld::new(&world);
    assert_eq!(observed.read("d/a"), Some("A".to_string()));
    assert_eq!(observed.read("d/missing"), None);
    assert_eq!(observed.list("d"), Some(vec!["a".to_string(), "b".to_string()]));
    let reads = observed.into_read_set();
    assert_eq!(reads.entries.len(), 3);
    assert!(verify(&reads, &world));

    let changed = vec![mount("d", &[("a", "A2"), ("b", "B")])];
    assert!(!verify(&reads, &MountedWorld::new(&changed)));
    let appeared = vec![mount("d", &[("a", "A"), ("b", "B"), ("missing", "!")])];
    assert!(!verify(&reads, &MountedWorld::new(&appeared)));
    let grown = vec![mount("d", &[("a", "A"), ("b", "B"), ("c", "C")])];
    assert!(!verify(&reads, &MountedWorld::new(&grown)));
}

#[test]
fn mounted_world_answers_only_inside_mounts() {
    let mut tree = Tree::of(&[("x/y.txt", "why")]);
    tree.insert_bytes("raw", vec![0xff]);
    let mounts = vec![Mount { at: "m".to_string(), tree }];
    let world = MountedWorld::new(&mounts);
    assert_eq!(world.read("m/x/y.txt"), Some("why".to_string()));
    assert_eq!(world.read("other/x/y.txt"), None);
    assert_eq!(world.read("m/raw"), None);
    assert_eq!(world.read_bytes("m/raw"), Some(vec![0xff]));
    assert_eq!(world.list("m/x"), Some(vec!["x/y.txt".to_string()]));
    assert_eq!(world.list("m/nothing"), None);
    let observed = ObservedWorld::new(&world);
    assert_eq!(observed.peek_bytes("m/x/y.txt"), Some(b"why".to_vec()));
    assert_eq!(observed.peek_list("m"), Some(vec!["raw".to_string(), "x/y.txt".to_string()]));
    assert_eq!(observed.into_read_set().entries.len(), 0);
}

#[test]
fn fake_ar_archives_a_listed_directory() {
    let p = plan(&[("rcs", Role::Flag), ("libx.a", Role::Output), ("objs", Role::Input)]);
    let mut cache = ExecCache::new();
    let two = vec![mount("objs", &[("a.o", "A"), ("b.o", "B")])];
    let out = cache.exec(&p, 0, &two, &FakeAr).expect("archives");
    let archive = text(&out.outputs, "libx.a").expect("archive written");
    assert!(archive.starts_with("archive(") && archive.len() == "archive()".len() + 64);
    assert_eq!(out.read_set.entries.len(), 4);
    assert!(matches!(out.read_set.entries.get_str("objs/"), Some(ReadObservation::Listing(_))));
    assert_eq!(out.read_set.entries.get_str("objs"), Some(&ReadObservation::Absent));

    let three = vec![mount("objs", &[("a.o", "A"), ("b.o", "B"), ("c.o", "C")])];
    let more = cache.exec(&p, 0, &three, &FakeAr).expect("rearchives");
    assert_eq!(cache.events, vec![ExecEvent::Ran, ExecEvent::Ran]);
    assert_ne!(more.outputs, out.outputs);

    let missing = plan(&[("libx.a", Role::Output), ("nowhere", Role::Input)]);
    assert_eq!(
        cache.exec(&missing, 0, &two, &FakeAr).err(),
        Some("ar: cannot read `nowhere` (outside the mounts?)".to_string())
    );
    assert_eq!(cache.exec(&plan(&[("rcs", Role::Flag)]), 0, &two, &FakeAr).err(), Some("ar: no output".to_string()));
}

#[test]
fn fake_build_script_writes_stdout_and_generated_file() {
    let p = plan(&[("build/script", Role::Executable), ("out/", Role::OutputDir)]);
    let mounts = vec![mount("build", &[("script", "#!")])];
    let mut cache = ExecCache::new();
    let out = cache.exec(&p, 0, &mounts, &FakeBuildScript).expect("runs");
    assert_eq!(
        text(&out.outputs, "$stdout"),
        Some("cargo:rustc-cfg=vix_slice3_build_script\ncargo:warning=vix fake build script\n".to_string())
    );
    assert_eq!(
        text(&out.outputs, "out/generated.rs"),
        Some("pub const GENERATED: &str = \"vix-build-script-generated\";\n".to_string())
    );
    assert_eq!(out.outputs.entries.len(), 2);

    let named = plan(&[("build/script", Role::Input), ("log.txt", Role::Stdout)]);
    let out = cache.exec(&named, 0, &mounts, &FakeBuildScript).expect("runs");
    assert!(text(&out.outputs, "log.txt").is_some());
    assert_eq!(out.outputs.entries.len(), 1);

    let missing = plan(&[("nope", Role::Input)]);
    assert_eq!(
        cache.exec(&missing, 0, &mounts, &FakeBuildScript).err(),
        Some("build_script: cannot read `nope` (outside the mounts?)".to_string())
    );
}

#[test]
fn fake_rustc_names_artifact_kinds() {
    let mounts = vec![mount("src", &[("lib.rs", "pub fn f() {}\n")])];
    let mut cache = ExecCache::new();
    let bin = plan(&[("--crate-type", Role::Flag), ("bin", Role::Flag), ("src/lib.rs", Role::Input), ("out/app", Role::Output)]);
    let out = cache.exec(&bin, 0, &mounts, &FakeRustc).expect("bin");
    let app = text(&out.outputs, "out/app").expect("bin written");
    assert!(app.starts_with("bin(") && app.len() == "bin()".len() + 64);

    let lib = plan(&[
        ("src/lib.rs", Role::Input),
        ("--emit=link=out/libf.rlib,metadata=out/libf.rmeta", Role::OutputFlag),
    ]);
    let out = cache.exec(&lib, 0, &mounts, &FakeRustc).expect("lib");
    assert!(text(&out.outputs, "out/libf.rlib").unwrap().starts_with("rlib("));
    assert!(text(&out.outputs, "out/libf.rmeta").unwrap().starts_with("rmeta("));

    let pm = plan(&[("--crate-type", Role::Flag), ("proc-macro", Role::Flag), ("src/lib.rs", Role::Input), ("out/libm.so", Role::Output)]);
    let out = cache.exec(&pm, 0, &mounts, &FakeRustc).expect("proc-macro");
    assert!(text(&out.outputs, "out/libm.so").unwrap().starts_with("proc-macro("));

    assert_eq!(
        cache.exec(&plan(&[("src/lib.rs", Role::Input)]), 0, &mounts, &FakeRustc).err(),
        Some("rustc: no output".to_string())
    );
    assert_eq!(
        cache.exec(&plan(&[("gone.rs", Role::Input), ("o", Role::Output)]), 0, &mounts, &FakeRustc).err(),
        Some("rustc: cannot read `gone.rs` (outside the mounts?)".to_string())
    );
    assert_eq!(
        cache.exec(&plan(&[("./gone", Role::Executable), ("o", Role::Output)]), 0, &mounts, &FakeRustc).err(),
        Some("rustc: cannot read executable `./gone` (outside the mounts?)".to_string())
    );
}

#[test]
fn fake_rustc_prints_target_cfg() {
    let mounts: Vec<Mount> = Vec::new();
    let mut cache = ExecCache::new();
    let windows = plan(&[("--print=cfg", Role::Flag), ("--target", Role::Flag), ("x86_64-pc-windows-msvc", Role::Flag), ("cfg.txt", Role::Stdout)]);
    let out = cache.exec(&windows, 0, &mounts, &FakeRustc).expect("cfg");
    assert_eq!(
        text(&out.outputs, "cfg.txt"),
        Some("target_arch=\"x86_64\"\ntarget_family=\"windows\"\ntarget_os=\"windows\"\nwindows\n".to_string())
    );
    let host = plan(&[("--print=cfg", Role::Flag), ("cfg.txt", Role::Stdout)]);
    let out = cache.exec(&host, 0, &mounts, &FakeRustc).expect("cfg");
    assert_eq!(
        text(&out.outputs, "cfg.txt"),
        Some("target_arch=\"x86_64\"\ntarget_family=\"unix\"\ntarget_os=\"linux\"\nunix\n".to_string())
    );
    let wasm = plan(&[("--target", Role::Flag), ("wasm32-unknown-unknown", Role::Flag), ("cfg.txt", Role::Stdout)]);
    let out = cache.exec(&wasm, 0, &mounts, &FakeRustc).expect("cfg");
    assert_eq!(
        text(&out.outputs, "cfg.txt"),
        Some("target_arch=\"wasm32\"\ntarget_family=\"wasm\"\ntarget_os=\"unknown\"\n".to_string())
    );
    let mac = plan(&[("--target", Role::Flag), ("aarch64-apple-darwin", Role::Flag), ("cfg.txt", Role::Stdout)]);
    let out = cache.exec(&mac, 0, &mounts, &FakeRustc).expect("cfg");
    assert_eq!(
        text(&out.outputs, "cfg.txt"),
        Some("target_arch=\"aarch64\"\ntarget_family=\"unix\"\ntarget_os=\"macos\"\nunix\n".to_string())
    );
}

#[test]
fn digest_from_bytes_keeps_them() {
    let h = Blake3Hash::from([7u8; 32]);
    assert_eq!(h.as_bytes(), &[7u8; 32]);
    assert!(h.same(&Blake3Hash::from([7u8; 32])));
    assert!(!h.same(&Blake3Hash::from([8u8; 32])));
}

#[test]
fn an_absence_does_not_verify_once_a_blob_appears_there() {
    let empty = vec![Mount { at: "/w".to_string(), tree: Tree::empty() }];
    let before = MountedWorld::new(&empty);
    let mut observed = ObservedWorld::new(&before);
    assert_eq!(observed.read_bytes("/w/bin"), None);
    let reads = observed.into_read_set();
    assert_eq!(reads.entries.get_str("/w/bin"), Some(&ReadObservation::Absent));
    assert!(verify(&reads, &MountedWorld::new(&empty)));
    let blob = vec![Mount { at: "/w".to_string(), tree: Tree::of_blobs(&[("bin", &[0xffu8][..])]) }];
    let world = MountedWorld::new(&blob);
    assert_eq!(world.read("/w/bin"), None);
    assert_eq!(world.read_bytes("/w/bin"), Some(vec![0xff]));
    assert!(!verify(&reads, &world));
}

#[test]
fn a_recorded_run_is_served_by_both_tiers_in_turn() {
    let m1 = cc_mounts(false, "v1");
    let m2 = cc_mounts(false, "v2");
    let p = plan(&[("-O2", Role::Flag), ("-Wall", Role::Flag), ("-c", Role::Flag), ("src/main.c", Role::Input),
        ("inc", Role::SearchDir), ("-o", Role::Flag), ("main.o", Role::Output)]);
    let p2 = plan(&[("-Wall", Role::Flag), ("-O2", Role::Flag), ("-c", Role::Flag), ("src/main.c", Role::Input),
        ("inc", Role::SearchDir), ("-o", Role::Flag), ("main.o", Role::Output)]);
    assert_eq!(p.normalized().argv, p2.normalized().argv);
    let outcome = ExecCache::new().exec(&p, 3, &m1, &FakeCc).expect("runs");
    assert!(verify(&outcome.read_set, &MountedWorld::new(&m2)));

    let mut c = ExecCache::new();
    c.record_ran(&p, 3, &m1, outcome.copy());
    assert_eq!(c.events, vec![ExecEvent::Ran]);
    let hit = c.lookup(&p2, 3, &m1).expect("tier 1");
    assert_eq!(hit.outputs, outcome.outputs);
    assert_eq!(c.events, vec![ExecEvent::Ran, ExecEvent::Tier1Hit]);
    let cut = c.lookup(&p2, 3, &m2).expect("tier 2");
    assert_eq!(cut.outputs, outcome.outputs);
    assert_eq!(c.events.last(), Some(&ExecEvent::Tier2Cutoff { verified: outcome.read_set.entries.len() }));
    let again = c.lookup(&p2, 3, &m2).expect("tier 1 again");
    assert_eq!(again.outputs, outcome.outputs);
    assert_eq!(c.events.last(), Some(&ExecEvent::Tier1Hit));
    let before = c.events.len();
    assert!(c.lookup(&p2, 4, &m1).is_none());
    assert_eq!(c.events.len(), before);
}
