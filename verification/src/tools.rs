//! Fake tools for plan and cache tests: enough behaviour to generate real
//! read-set dynamics without spawning anything. Each reads what its plan
//! names through the observing snapshot and "produces" outputs by hashing
//! what it read.

use vstd::prelude::*;
use crate::bytes::{append_framed, append_framed_str, append_str, blake3_digest, blake3_hash, hex_encode, utf8, framed};
use crate::exec::{
    Access, ExecPlan, ObservedWorld, Role, Snapshot, Tool, ToolFiles, Tree, recorded, lemma_recorded_concat, input_paths, output_dir_paths, output_paths,
    pairs_map, role_input_paths, role_output_dir_paths, role_output_paths, role_stdout_paths,
    search_dir_paths, stdout_paths, string_views,
};
use crate::protocol::hex_of;
use crate::text::{chars_of, owned, push_str, string_of, trim_end, trim_end_chars};

verus! {

// ---------------------------------------------------------------------------
// The paths a plan names
// ---------------------------------------------------------------------------

/// Every input path of an argv, in order.
pub open spec fn all_inputs(v: Seq<(Seq<char>, Role)>) -> Seq<Seq<char>>
    decreases v.len(),
{
    if v.len() == 0 { seq![] } else { all_inputs(v.drop_last()) + input_paths(v.last().0, v.last().1) }
}

/// Every output path of an argv, in order.
pub open spec fn all_outputs(v: Seq<(Seq<char>, Role)>) -> Seq<Seq<char>>
    decreases v.len(),
{
    if v.len() == 0 { seq![] } else { all_outputs(v.drop_last()) + output_paths(v.last().0, v.last().1) }
}

/// Every output directory of an argv, in order.
pub open spec fn all_output_dirs(v: Seq<(Seq<char>, Role)>) -> Seq<Seq<char>>
    decreases v.len(),
{
    if v.len() == 0 { seq![] } else { all_output_dirs(v.drop_last()) + output_dir_paths(v.last().0, v.last().1) }
}

/// Every stdout capture path of an argv, in order.
pub open spec fn all_stdouts(v: Seq<(Seq<char>, Role)>) -> Seq<Seq<char>>
    decreases v.len(),
{
    if v.len() == 0 { seq![] } else { all_stdouts(v.drop_last()) + stdout_paths(v.last().0, v.last().1) }
}

/// Every search directory of an argv, in order.
pub open spec fn all_search_dirs(v: Seq<(Seq<char>, Role)>) -> Seq<Seq<char>>
    decreases v.len(),
{
    if v.len() == 0 { seq![] } else { all_search_dirs(v.drop_last()) + search_dir_paths(v.last().0, v.last().1) }
}

/// Which path list of an argument a collection gathers.
#[derive(Clone, Copy)]
enum PathKind {
    Inputs,
    Outputs,
    OutputDirs,
    Stdouts,
    SearchDirs,
}

/// The paths of one kind that one argument names.
pub open spec fn kind_paths(kind: PathKindView, arg: Seq<char>, role: Role) -> Seq<Seq<char>> {
    match kind {
        PathKindView::Inputs => input_paths(arg, role),
        PathKindView::Outputs => output_paths(arg, role),
        PathKindView::OutputDirs => output_dir_paths(arg, role),
        PathKindView::Stdouts => stdout_paths(arg, role),
        PathKindView::SearchDirs => search_dir_paths(arg, role),
    }
}

/// Which path list a collection gathers, in specifications.
pub enum PathKindView {
    Inputs,
    Outputs,
    OutputDirs,
    Stdouts,
    SearchDirs,
}

/// All paths of one kind in an argv.
pub open spec fn all_of(kind: PathKindView, v: Seq<(Seq<char>, Role)>) -> Seq<Seq<char>> {
    match kind {
        PathKindView::Inputs => all_inputs(v),
        PathKindView::Outputs => all_outputs(v),
        PathKindView::OutputDirs => all_output_dirs(v),
        PathKindView::Stdouts => all_stdouts(v),
        PathKindView::SearchDirs => all_search_dirs(v),
    }
}

/// The specification side of a path kind.
spec fn kind_view(k: PathKind) -> PathKindView {
    match k {
        PathKind::Inputs => PathKindView::Inputs,
        PathKind::Outputs => PathKindView::Outputs,
        PathKind::OutputDirs => PathKindView::OutputDirs,
        PathKind::Stdouts => PathKindView::Stdouts,
        PathKind::SearchDirs => PathKindView::SearchDirs,
    }
}

/// All paths of one kind that a plan names, in argv order.
fn collect_paths(plan: &ExecPlan, kind: PathKind) -> (out: Vec<String>)
    ensures
        string_views(out@) == all_of(kind_view(kind), plan@),
{
    let mut out: Vec<String> = Vec::new();
    let mut i: usize = 0;
    assert(string_views(out@) =~= Seq::<Seq<char>>::empty());
    while i < plan.argv.len()
        invariant
            i <= plan.argv@.len(),
            plan@.len() == plan.argv@.len(),
            string_views(out@) == all_of(kind_view(kind), plan@.take(i as int)),
        decreases plan.argv@.len() - i,
    {
        let (arg, role) = &plan.argv[i];
        let more = match kind {
            PathKind::Inputs => role_input_paths(arg.as_str(), *role),
            PathKind::Outputs => role_output_paths(arg.as_str(), *role),
            PathKind::OutputDirs => role_output_dir_paths(arg.as_str(), *role),
            PathKind::Stdouts => role_stdout_paths(arg.as_str(), *role),
            PathKind::SearchDirs => crate::exec::role_search_dir_paths(arg.as_str(), *role),
        };
        let ghost before = out@;
        let mut more = more;
        let ghost mv = more@;
        out.append(&mut more);
        proof {
            assert(string_views(out@) =~= string_views(before) + string_views(mv));
            let t = plan@.take(i as int + 1);
            assert(t.drop_last() == plan@.take(i as int));
            assert(t.last() == plan@[i as int]);
            assert(plan@[i as int] == (arg@, *role));
        }
        i = i + 1;
    }
    assert(plan@.take(plan.argv@.len() as int) == plan@);
    out
}

/// The framed flags of an argv, in order.
pub open spec fn flag_records(v: Seq<(Seq<char>, Role)>) -> Seq<u8>
    decreases v.len(),
{
    if v.len() == 0 {
        seq![]
    } else {
        flag_records(v.drop_last()) + if v.last().1 == Role::Flag { framed(utf8(v.last().0)) } else { seq![] }
    }
}

/// Appends the framed flags of a plan to a message.
fn append_flags(m: &mut Vec<u8>, plan: &ExecPlan)
    ensures
        final(m)@ == old(m)@ + flag_records(plan@),
{
    let mut i: usize = 0;
    while i < plan.argv.len()
        invariant
            i <= plan.argv@.len(),
            plan@.len() == plan.argv@.len(),
            m@ == old(m)@ + flag_records(plan@.take(i as int)),
        decreases plan.argv@.len() - i,
    {
        let (arg, role) = &plan.argv[i];
        if matches!(role, Role::Flag) {
            append_framed_str(m, arg.as_str());
        }
        proof {
            let t = plan@.take(i as int + 1);
            assert(t.drop_last() == plan@.take(i as int));
            assert(t.last() == plan@[i as int]);
            assert(plan@[i as int] == (arg@, *role));
        }
        i = i + 1;
    }
    assert(plan@.take(plan.argv@.len() as int) == plan@);
}

/// `label(` + the hex BLAKE3 digest of `message` + `)`.
pub open spec fn digest_label(label: Seq<char>, message: Seq<u8>) -> Seq<char> {
    label + "("@ + hex_of(blake3_digest(message)@) + ")"@
}

/// The label and digest of a finished message.
fn digest_label_exec(label: &str, message: &Vec<u8>) -> (s: String)
    ensures
        s@ == digest_label(label@, message@),
{
    let digest = blake3_hash(message.as_slice());
    let hex = hex_encode(&digest);
    let mut s = owned(label);
    push_str(&mut s, "(");
    push_str(&mut s, hex.as_str());
    push_str(&mut s, ")");
    s
}

/// `prefix` + `subject` + `suffix`, as a message.
fn wrapped(prefix: &str, subject: &str, suffix: &str) -> (s: String)
    ensures
        s@ == prefix@ + subject@ + suffix@,
{
    let mut s = owned(prefix);
    push_str(&mut s, subject);
    push_str(&mut s, suffix);
    s
}

/// The map of one pair.
proof fn lemma_pairs_map_one<V>(s: Seq<(Seq<char>, V)>)
    requires
        s.len() == 1,
    ensures
        pairs_map(s) == Map::<Seq<char>, V>::empty().insert(s[0].0, s[0].1),
{
    assert(s.drop_last() =~= Seq::<(Seq<char>, V)>::empty());
    assert(pairs_map(s.drop_last()) == Map::<Seq<char>, V>::empty());
}

/// A one-file text tree.
fn one_file(path: &str, contents: &str) -> (t: Tree)
    ensures
        t.text_map() == map![path@ => contents@],
        t.blob_map() == Map::<Seq<char>, Seq<u8>>::empty(),
{
    let entries = [(path, contents)];
    let t = Tree::of(entries.as_slice());
    proof {
        assert(entries@ =~= seq![(path, contents)]);
        let pv = entries@.map_values(|e: (&str, &str)| (e.0@, e.1@));
        assert(pv =~= seq![(path@, contents@)]);
        lemma_pairs_map_one(pv);
        assert(pairs_map(pv) =~= map![path@ => contents@]);
    }
    t
}

// ---------------------------------------------------------------------------
// Reading through the observing snapshot
// ---------------------------------------------------------------------------

/// Reads text through the observer (recording the read).
fn read_text<'a, S: Snapshot>(world: &mut ObservedWorld<'a, S>, path: &str) -> (r: Option<String>)
    ensures
        final(world).world() == old(world).world(),
        final(world).observed() == recorded(old(world).observed(), old(world).world(), seq![Access::Text(path@)]),
        match r {
            Some(s) => old(world).world().spec_read(path@) == Some(s@),
            None => old(world).world().spec_read(path@) is None,
        },
{
    world.read(path)
}

/// Reads bytes through the observer (recording the read).
fn read_raw<'a, S: Snapshot>(world: &mut ObservedWorld<'a, S>, path: &str) -> (r: Option<Vec<u8>>)
    ensures
        final(world).world() == old(world).world(),
        final(world).observed() == recorded(old(world).observed(), old(world).world(), seq![Access::Bytes(path@)]),
        match r {
            Some(b) => old(world).world().spec_read_bytes(path@) == Some(b@),
            None => old(world).world().spec_read_bytes(path@) is None,
        },
{
    world.read_bytes(path)
}

/// Lists a directory through the observer (recording the listing).
fn list_dir<'a, S: Snapshot>(world: &mut ObservedWorld<'a, S>, dir: &str) -> (r: Option<Vec<String>>)
    ensures
        final(world).world() == old(world).world(),
        final(world).observed() == recorded(old(world).observed(), old(world).world(), seq![Access::Listing(dir@)]),
        match r {
            Some(v) => old(world).world().spec_list(dir@) == Some(string_views(v@)),
            None => old(world).world().spec_list(dir@) is None,
        },
{
    world.list(dir)
}

// ---------------------------------------------------------------------------
// The fake build script
// ---------------------------------------------------------------------------

/// The first input the snapshot has no bytes for, if any.
pub open spec fn first_unreadable<S: Snapshot>(world: &S, inputs: Seq<Seq<char>>) -> Option<Seq<char>>
    decreases inputs.len(),
{
    if inputs.len() == 0 {
        None
    } else {
        match first_unreadable(world, inputs.drop_last()) {
            Some(p) => Some(p),
            None => if world.spec_read_bytes(inputs.last()) is None { Some(inputs.last()) } else { None },
        }
    }
}

/// The byte reads of the inputs, up to and including the first unreadable one.
pub open spec fn script_reads<S: Snapshot>(world: &S, inputs: Seq<Seq<char>>) -> Seq<Access>
    decreases inputs.len(),
{
    if inputs.len() == 0 {
        seq![]
    } else if first_unreadable(world, inputs.drop_last()) is Some {
        script_reads(world, inputs.drop_last())
    } else {
        script_reads(world, inputs.drop_last()).push(Access::Bytes(inputs.last()))
    }
}

/// The stdout directives the fake build script prints.
pub open spec fn build_script_stdout() -> Seq<char> {
    "cargo:rustc-cfg=vix_slice3_build_script\ncargo:warning=vix fake build script\n"@
}

/// The file the fake build script generates in each output directory.
pub open spec fn build_script_generated() -> Seq<char> {
    "pub const GENERATED: &str = \"vix-build-script-generated\";\n"@
}

/// The generated file's path inside an output directory.
pub open spec fn generated_path(dir: Seq<char>) -> Seq<char> {
    trim_end(dir, '/') + "/generated.rs"@
}

/// The entries the fake build script writes: its stdout, then one generated
/// file per output directory (a later entry for the same path wins).
pub open spec fn build_script_rows(v: Seq<(Seq<char>, Role)>) -> Seq<(Seq<char>, Seq<char>)> {
    let stdout = if all_stdouts(v).len() > 0 { all_stdouts(v)[0] } else { "$stdout"@ };
    seq![(stdout, build_script_stdout())]
        + all_output_dirs(v).map_values(|d: Seq<char>| (generated_path(d), build_script_generated()))
}

/// Mirrors a build script's two observable products: stdout directives and
/// generated files under each output directory.
pub struct FakeBuildScript;

impl<S: Snapshot> Tool<S> for FakeBuildScript {
    open spec fn reads(&self, world: &S, plan: Seq<(Seq<char>, Role)>) -> Seq<Access> {
        script_reads(world, all_inputs(plan))
    }

    open spec fn outcome(&self, world: &S, plan: Seq<(Seq<char>, Role)>) -> Result<ToolFiles, Seq<char>> {
        match first_unreadable(world, all_inputs(plan)) {
            Some(p) => Err("build_script: cannot read `"@ + p + "` (outside the mounts?)"@),
            None => Ok((pairs_map(build_script_rows(plan)), Map::empty())),
        }
    }

    fn run<'a>(&self, plan: &ExecPlan, world: &mut ObservedWorld<'a, S>) -> (r: Result<Tree, String>)
        ensures
            final(world).observed() == recorded(old(world).observed(), old(world).world(),
                script_reads(old(world).world(), all_inputs(plan@))),
            match first_unreadable(old(world).world(), all_inputs(plan@)) {
                Some(p) => r matches Err(e)
                    && e@ == "build_script: cannot read `"@ + p + "` (outside the mounts?)"@,
                None => r matches Ok(t) && t.text_map() == pairs_map(build_script_rows(plan@))
                    && t.blob_map() == Map::<Seq<char>, Seq<u8>>::empty(),
            },
    {
        let inputs = collect_paths(plan, PathKind::Inputs);
        let ghost w = world.world();
        let mut i: usize = 0;
        while i < inputs.len()
            invariant
                i <= inputs@.len(),
                world.world() == w,
                w == old(world).world(),
                string_views(inputs@) == all_inputs(plan@),
                first_unreadable(w, string_views(inputs@).take(i as int)) is None,
                world.observed() == recorded(old(world).observed(), w, script_reads(w, string_views(inputs@).take(i as int))),
            decreases inputs@.len() - i,
        {
            let ghost before = world.observed();
            let got = read_raw(world, inputs[i].as_str());
            proof {
                let t = string_views(inputs@).take(i as int + 1);
                assert(t.drop_last() == string_views(inputs@).take(i as int));
                assert(t.last() == inputs@[i as int]@);
                lemma_recorded_concat(old(world).observed(), w, script_reads(w, t.drop_last()), seq![Access::Bytes(t.last())]);
                assert(script_reads(w, t) == script_reads(w, t.drop_last()) + seq![Access::Bytes(t.last())]);
            }
            if got.is_none() {
                proof {
                    lemma_first_unreadable_prefix(w, string_views(inputs@), i as int + 1);
                    lemma_script_reads_prefix(w, string_views(inputs@), i as int + 1);
                }
                return Err(wrapped("build_script: cannot read `", inputs[i].as_str(), "` (outside the mounts?)"));
            }
            i = i + 1;
        }
        assert(string_views(inputs@).take(inputs@.len() as int) == string_views(inputs@));
        let stdouts = collect_paths(plan, PathKind::Stdouts);
        let stdout = if stdouts.len() > 0 { owned(stdouts[0].as_str()) } else { owned("$stdout") };
        let out_dirs = collect_paths(plan, PathKind::OutputDirs);
        let mut tree = Tree::empty();
        let ghost rows = build_script_rows(plan@);
        tree.entries.insert(stdout, owned("cargo:rustc-cfg=vix_slice3_build_script\ncargo:warning=vix fake build script\n"));
        proof {
            lemma_pairs_map_one(rows.take(1));
            assert(tree.text_map() =~= pairs_map(rows.take(1)));
        }
        let mut k: usize = 0;
        while k < out_dirs.len()
            invariant
                k <= out_dirs@.len(),
                rows == build_script_rows(plan@),
                string_views(out_dirs@) == all_output_dirs(plan@),
                rows.len() == 1 + out_dirs@.len(),
                tree.wf(),
                tree.text_map() == pairs_map(rows.take(k as int + 1)),
                tree.blob_map() == Map::<Seq<char>, Seq<u8>>::empty(),
            decreases out_dirs@.len() - k,
        {
            let dir = chars_of(out_dirs[k].as_str());
            let trimmed = trim_end_chars(dir.as_slice(), '/');
            let mut path = string_of(trimmed.as_slice());
            push_str(&mut path, "/generated.rs");
            tree.entries.insert(path, owned("pub const GENERATED: &str = \"vix-build-script-generated\";\n"));
            proof {
                assert(rows[k as int + 1] == (generated_path(out_dirs@[k as int]@), build_script_generated()));
                assert(rows.take(k as int + 2).drop_last() == rows.take(k as int + 1));
                assert(tree.text_map() =~= pairs_map(rows.take(k as int + 2)));
            }
            k = k + 1;
        }
        assert(rows.take(out_dirs@.len() as int + 1) == rows);
        Ok(tree)
    }
}

/// Once an input is unreadable, no later input is read.
proof fn lemma_script_reads_prefix<S: Snapshot>(world: &S, inputs: Seq<Seq<char>>, n: int)
    requires
        0 <= n <= inputs.len(),
        first_unreadable(world, inputs.take(n)) is Some,
    ensures
        script_reads(world, inputs) == script_reads(world, inputs.take(n)),
    decreases inputs.len() - n,
{
    if n < inputs.len() {
        assert(inputs.take(n + 1).drop_last() == inputs.take(n));
        lemma_first_unreadable_prefix(world, inputs.take(n + 1), n);
        assert(inputs.take(n + 1).take(n) == inputs.take(n));
        lemma_script_reads_prefix(world, inputs, n + 1);
    } else {
        assert(inputs.take(n) == inputs);
    }
}

/// Once an input is unreadable, every longer prefix reports the first one.
proof fn lemma_first_unreadable_prefix<S: Snapshot>(world: &S, inputs: Seq<Seq<char>>, n: int)
    requires
        0 <= n <= inputs.len(),
        first_unreadable(world, inputs.take(n)) is Some,
    ensures
        first_unreadable(world, inputs) == first_unreadable(world, inputs.take(n)),
    decreases inputs.len() - n,
{
    if n < inputs.len() {
        assert(inputs.take(n + 1).drop_last() == inputs.take(n));
        lemma_first_unreadable_prefix(world, inputs, n + 1);
    } else {
        assert(inputs.take(n) == inputs);
    }
}


// ---------------------------------------------------------------------------
// The fake archiver
// ---------------------------------------------------------------------------

/// The archive message after the members `names` of directory `dir`, or the
/// first member that vanished.
pub open spec fn ar_members<S: Snapshot>(world: &S, acc: Seq<u8>, dir: Seq<char>, names: Seq<Seq<char>>)
    -> Result<Seq<u8>, Seq<char>>
    decreases names.len(),
{
    if names.len() == 0 {
        Ok(acc)
    } else {
        match ar_members(world, acc, dir, names.drop_last()) {
            Err(e) => Err(e),
            Ok(m) => match world.spec_read(dir + "/"@ + names.last()) {
                Some(c) => Ok(m + framed(utf8(c))),
                None => Err("ar: `"@ + dir + "/"@ + names.last() + "` vanished mid-run"@),
            },
        }
    }
}

/// The archive message after one input: a file's text, or every member of
/// a directory in listing order; an input that is neither fails.
pub open spec fn ar_input_step<S: Snapshot>(world: &S, m: Seq<u8>, input: Seq<char>) -> Result<Seq<u8>, Seq<char>> {
    match world.spec_read(input) {
        Some(c) => Ok(m + framed(utf8(c))),
        None => match world.spec_list(input) {
            Some(names) => ar_members(world, m, input, names),
            None => Err("ar: cannot read `"@ + input + "` (outside the mounts?)"@),
        },
    }
}

/// The archive message after the inputs, in order; the first failing input
/// stops it.
pub open spec fn ar_inputs<S: Snapshot>(world: &S, acc: Seq<u8>, inputs: Seq<Seq<char>>) -> Result<Seq<u8>, Seq<char>>
    decreases inputs.len(),
{
    if inputs.len() == 0 {
        Ok(acc)
    } else {
        match ar_inputs(world, acc, inputs.drop_last()) {
            Err(e) => Err(e),
            Ok(m) => ar_input_step(world, m, inputs.last()),
        }
    }
}

/// The member reads of a directory, up to and including the first vanished one.
pub open spec fn ar_member_reads<S: Snapshot>(world: &S, acc: Seq<u8>, dir: Seq<char>, names: Seq<Seq<char>>) -> Seq<Access>
    decreases names.len(),
{
    if names.len() == 0 {
        seq![]
    } else if ar_members(world, acc, dir, names.drop_last()) is Err {
        ar_member_reads(world, acc, dir, names.drop_last())
    } else {
        ar_member_reads(world, acc, dir, names.drop_last()).push(Access::Text(dir + "/"@ + names.last()))
    }
}

/// The queries of one input: a text read; when it has no text, a listing;
/// when it lists, its members' reads.
pub open spec fn ar_input_reads<S: Snapshot>(world: &S, m: Seq<u8>, input: Seq<char>) -> Seq<Access> {
    seq![Access::Text(input)] + match world.spec_read(input) {
        Some(_) => seq![],
        None => seq![Access::Listing(input)] + match world.spec_list(input) {
            Some(names) => ar_member_reads(world, m, input, names),
            None => seq![],
        },
    }
}

/// The queries of the inputs, in order, up to and including the first failing one.
pub open spec fn ar_reads<S: Snapshot>(world: &S, acc: Seq<u8>, inputs: Seq<Seq<char>>) -> Seq<Access>
    decreases inputs.len(),
{
    if inputs.len() == 0 {
        seq![]
    } else {
        match ar_inputs(world, acc, inputs.drop_last()) {
            Err(_) => ar_reads(world, acc, inputs.drop_last()),
            Ok(m) => ar_reads(world, acc, inputs.drop_last()) + ar_input_reads(world, m, inputs.last()),
        }
    }
}

/// The queries the fake archiver makes.
pub open spec fn ar_tool_reads<S: Snapshot>(world: &S, v: Seq<(Seq<char>, Role)>) -> Seq<Access> {
    if all_outputs(v).len() == 0 {
        seq![]
    } else {
        ar_reads(world, utf8("vix-fake-ar-output"@) + flag_records(v), all_inputs(v))
    }
}

/// What the fake archiver produces: (output path, contents), or its failure.
pub open spec fn ar_outcome<S: Snapshot>(world: &S, v: Seq<(Seq<char>, Role)>) -> Result<(Seq<char>, Seq<char>), Seq<char>> {
    if all_outputs(v).len() == 0 {
        Err("ar: no output"@)
    } else {
        match ar_inputs(world, utf8("vix-fake-ar-output"@) + flag_records(v), all_inputs(v)) {
            Ok(m) => Ok((all_outputs(v)[0], digest_label("archive"@, m))),
            Err(e) => Err(e),
        }
    }
}

/// One more member of a directory.
proof fn lemma_ar_members_step<S: Snapshot>(world: &S, acc: Seq<u8>, dir: Seq<char>, names: Seq<Seq<char>>, k: int)
    requires
        0 <= k < names.len(),
    ensures
        ar_members(world, acc, dir, names.take(k + 1)) == (match ar_members(world, acc, dir, names.take(k)) {
            Err(e) => Err(e),
            Ok(m) => match world.spec_read(dir + "/"@ + names[k]) {
                Some(c) => Ok(m + framed(utf8(c))),
                None => Err("ar: `"@ + dir + "/"@ + names[k] + "` vanished mid-run"@),
            },
        }),
{
    assert(names.take(k + 1).drop_last() == names.take(k));
    assert(names.take(k + 1).last() == names[k]);
}

/// One more input.
proof fn lemma_ar_inputs_step<S: Snapshot>(world: &S, acc: Seq<u8>, inputs: Seq<Seq<char>>, k: int)
    requires
        0 <= k < inputs.len(),
    ensures
        ar_inputs(world, acc, inputs.take(k + 1)) == (match ar_inputs(world, acc, inputs.take(k)) {
            Err(e) => Err(e),
            Ok(m) => ar_input_step(world, m, inputs[k]),
        }),
{
    assert(inputs.take(k + 1).drop_last() == inputs.take(k));
    assert(inputs.take(k + 1).last() == inputs[k]);
}

/// A failed step leaves every longer prefix failed the same way.
proof fn lemma_ar_members_fail<S: Snapshot>(world: &S, acc: Seq<u8>, dir: Seq<char>, names: Seq<Seq<char>>, n: int)
    requires
        0 <= n <= names.len(),
        ar_members(world, acc, dir, names.take(n)) is Err,
    ensures
        ar_members(world, acc, dir, names) == ar_members(world, acc, dir, names.take(n)),
        ar_member_reads(world, acc, dir, names) == ar_member_reads(world, acc, dir, names.take(n)),
    decreases names.len() - n,
{
    if n < names.len() {
        assert(names.take(n + 1).drop_last() == names.take(n));
        lemma_ar_members_fail(world, acc, dir, names, n + 1);
    } else {
        assert(names.take(n) == names);
    }
}

/// A failed input leaves every longer prefix failed the same way.
proof fn lemma_ar_inputs_fail<S: Snapshot>(world: &S, acc: Seq<u8>, inputs: Seq<Seq<char>>, n: int)
    requires
        0 <= n <= inputs.len(),
        ar_inputs(world, acc, inputs.take(n)) is Err,
    ensures
        ar_inputs(world, acc, inputs) == ar_inputs(world, acc, inputs.take(n)),
        ar_reads(world, acc, inputs) == ar_reads(world, acc, inputs.take(n)),
    decreases inputs.len() - n,
{
    if n < inputs.len() {
        assert(inputs.take(n + 1).drop_last() == inputs.take(n));
        lemma_ar_inputs_fail(world, acc, inputs, n + 1);
    } else {
        assert(inputs.take(n) == inputs);
    }
}

/// Archives a listed directory's members into `m`.
fn ar_directory<'a, S: Snapshot>(world: &mut ObservedWorld<'a, S>, m: &mut Vec<u8>, dir: &str, names: &Vec<String>)
    -> (r: Result<(), String>)
    ensures
        final(world).world() == old(world).world(),
        final(world).observed() == recorded(old(world).observed(), old(world).world(),
            ar_member_reads(old(world).world(), old(m)@, dir@, string_views(names@))),
        match ar_members(old(world).world(), old(m)@, dir@, string_views(names@)) {
            Ok(x) => r is Ok && final(m)@ == x,
            Err(e) => r matches Err(s) && s@ == e,
        },
{
    let ghost w = world.world();
    let ghost acc = m@;
    let ghost nv = string_views(names@);
    let mut k: usize = 0;
    while k < names.len()
        invariant
            k <= names@.len(),
            world.world() == w,
            w == old(world).world(),
            acc == old(m)@,
            nv == string_views(names@),
            ar_members(w, acc, dir@, nv.take(k as int)) == Ok::<Seq<u8>, Seq<char>>(m@),
            world.observed() == recorded(old(world).observed(), w, ar_member_reads(w, acc, dir@, nv.take(k as int))),
        decreases names@.len() - k,
    {
        let mut path = owned(dir);
        push_str(&mut path, "/");
        push_str(&mut path, names[k].as_str());
        let got = read_text(world, path.as_str());
        proof {
            lemma_ar_members_step(w, acc, dir@, nv, k as int);
            assert(nv[k as int] == names@[k as int]@);
            let t = nv.take(k as int + 1);
            assert(t.drop_last() == nv.take(k as int));
            assert(t.last() == nv[k as int]);
            assert(ar_member_reads(w, acc, dir@, t) == ar_member_reads(w, acc, dir@, t.drop_last())
                + seq![Access::Text(dir@ + "/"@ + nv[k as int])]);
            lemma_recorded_concat(old(world).observed(), w, ar_member_reads(w, acc, dir@, t.drop_last()),
                seq![Access::Text(dir@ + "/"@ + nv[k as int])]);
        }
        match got {
            Some(contents) => {
                append_framed_str(m, contents.as_str());
            },
            None => {
                proof { lemma_ar_members_fail(w, acc, dir@, nv, k as int + 1); }
                let mut e = owned("ar: `");
                push_str(&mut e, path.as_str());
                push_str(&mut e, "` vanished mid-run");
                return Err(e);
            },
        }
        k = k + 1;
    }
    assert(nv.take(names@.len() as int) == nv);
    Ok(())
}

/// Archives one input into `m`: its text, or its listed members.
fn ar_input<'a, S: Snapshot>(world: &mut ObservedWorld<'a, S>, m: &mut Vec<u8>, input: &str) -> (r: Result<(), String>)
    ensures
        final(world).world() == old(world).world(),
        final(world).observed() == recorded(old(world).observed(), old(world).world(),
            ar_input_reads(old(world).world(), old(m)@, input@)),
        match ar_input_step(old(world).world(), old(m)@, input@) {
            Ok(x) => r is Ok && final(m)@ == x,
            Err(e) => r matches Err(s) && s@ == e,
        },
{
    let ghost w = world.world();
    let ghost o0 = world.observed();
    let ghost a = seq![Access::Text(input@)];
    let ghost b = seq![Access::Listing(input@)];
    match read_text(world, input) {
        Some(contents) => {
            append_framed_str(m, contents.as_str());
            assert(ar_input_reads(w, old(m)@, input@) =~= a);
            Ok(())
        },
        None => {
            let ghost o1 = world.observed();
            match list_dir(world, input) {
                Some(names) => {
                    let ghost o2 = world.observed();
                    let r = ar_directory(world, m, input, &names);
                    proof {
                        let c = ar_member_reads(w, old(m)@, input@, string_views(names@));
                        assert(ar_input_reads(w, old(m)@, input@) =~= a + (b + c));
                        lemma_recorded_concat(o1, w, b, c);
                        lemma_recorded_concat(o0, w, a, b + c);
                    }
                    r
                },
                None => {
                    proof {
                        assert(ar_input_reads(w, old(m)@, input@) =~= a + b);
                        lemma_recorded_concat(o0, w, a, b);
                    }
                    Err(wrapped("ar: cannot read `", input, "` (outside the mounts?)"))
                },
            }
        },
    }
}

/// Archives every input into `m`, in order.
fn ar_all_inputs<'a, S: Snapshot>(world: &mut ObservedWorld<'a, S>, m: &mut Vec<u8>, inputs: &Vec<String>)
    -> (r: Result<(), String>)
    ensures
        final(world).world() == old(world).world(),
        final(world).observed() == recorded(old(world).observed(), old(world).world(),
            ar_reads(old(world).world(), old(m)@, string_views(inputs@))),
        match ar_inputs(old(world).world(), old(m)@, string_views(inputs@)) {
            Ok(x) => r is Ok && final(m)@ == x,
            Err(e) => r matches Err(s) && s@ == e,
        },
{
    let ghost w = world.world();
    let ghost acc = m@;
    let ghost iv = string_views(inputs@);
    let mut i: usize = 0;
    while i < inputs.len()
        invariant
            i <= inputs@.len(),
            world.world() == w,
            w == old(world).world(),
            acc == old(m)@,
            iv == string_views(inputs@),
            ar_inputs(w, acc, iv.take(i as int)) == Ok::<Seq<u8>, Seq<char>>(m@),
            world.observed() == recorded(old(world).observed(), w, ar_reads(w, acc, iv.take(i as int))),
        decreases inputs@.len() - i,
    {
        let input = inputs[i].as_str();
        proof {
            lemma_ar_inputs_step(w, acc, iv, i as int);
            assert(iv[i as int] == input@);
            let t = iv.take(i as int + 1);
            assert(t.drop_last() == iv.take(i as int));
            assert(t.last() == input@);
            assert(ar_reads(w, acc, t) == ar_reads(w, acc, t.drop_last()) + ar_input_reads(w, m@, input@));
            lemma_recorded_concat(old(world).observed(), w, ar_reads(w, acc, t.drop_last()), ar_input_reads(w, m@, input@));
        }
        match ar_input(world, m, input) {
            Ok(()) => {},
            Err(e) => {
                proof { lemma_ar_inputs_fail(w, acc, iv, i as int + 1); }
                return Err(e);
            },
        }
        i = i + 1;
    }
    assert(iv.take(inputs@.len() as int) == iv);
    Ok(())
}

/// Concatenates what it reads; directory inputs are enumerated (a listing
/// observation) and every member archived.
pub struct FakeAr;

impl<S: Snapshot> Tool<S> for FakeAr {
    open spec fn reads(&self, world: &S, plan: Seq<(Seq<char>, Role)>) -> Seq<Access> {
        ar_tool_reads(world, plan)
    }

    open spec fn outcome(&self, world: &S, plan: Seq<(Seq<char>, Role)>) -> Result<ToolFiles, Seq<char>> {
        match ar_outcome(world, plan) {
            Ok((path, contents)) => Ok((map![path => contents], Map::empty())),
            Err(e) => Err(e),
        }
    }

    fn run<'a>(&self, plan: &ExecPlan, world: &mut ObservedWorld<'a, S>) -> (r: Result<Tree, String>)
        ensures
            final(world).observed() == recorded(old(world).observed(), old(world).world(),
                ar_tool_reads(old(world).world(), plan@)),
            match ar_outcome(old(world).world(), plan@) {
                Ok((path, contents)) => r matches Ok(t) && t.text_map() == map![path => contents]
                    && t.blob_map() == Map::<Seq<char>, Seq<u8>>::empty(),
                Err(e) => r matches Err(s) && s@ == e,
            },
    {
        let outputs = collect_paths(plan, PathKind::Outputs);
        if outputs.len() == 0 {
            return Err(owned("ar: no output"));
        }
        let mut m: Vec<u8> = Vec::new();
        append_str(&mut m, "vix-fake-ar-output");
        append_flags(&mut m, plan);
        let inputs = collect_paths(plan, PathKind::Inputs);
        match ar_all_inputs(world, &mut m, &inputs) {
            Ok(()) => {},
            Err(e) => return Err(e),
        }
        let label = digest_label_exec("archive", &m);
        Ok(one_file(outputs[0].as_str(), label.as_str()))
    }
}


// ---------------------------------------------------------------------------
// The fake C compiler
// ---------------------------------------------------------------------------

/// The header a line includes: `#include "x"` (after trimming) names `x`.
pub open spec fn cc_header(line: Seq<char>) -> Option<Seq<char>> {
    let t = crate::text::trim_ws(line);
    if crate::text::has_prefix(t, "#include \""@) && t.len() >= 11 && t.last() == '"' {
        Some(t.subrange(10, t.len() - 1))
    } else {
        None
    }
}

/// The directory of an input path: what precedes its last `/`, or nothing.
pub open spec fn own_dir(input: Seq<char>) -> Seq<char> {
    let i = crate::text::rfind_char(input, '/');
    if i >= 0 { input.take(i) } else { seq![] }
}

/// Where a quoted include is probed, in order: the including file's own
/// directory first (when it has one), then each search directory.
pub open spec fn probes(dir: Seq<char>, search: Seq<Seq<char>>, header: Seq<char>) -> Seq<Seq<char>> {
    (if dir.len() > 0 { seq![dir + "/"@ + header] } else { seq![] })
        + search.map_values(|d: Seq<char>| d + "/"@ + header)
}

/// The text of the first probe the snapshot has.
pub open spec fn first_found<S: Snapshot>(world: &S, probes: Seq<Seq<char>>) -> Option<Seq<char>>
    decreases probes.len(),
{
    if probes.len() == 0 {
        None
    } else {
        match world.spec_read(probes[0]) {
            Some(c) => Some(c),
            None => first_found(world, probes.drop_first()),
        }
    }
}

/// The compile message after one source line: an include adds the first
/// header found, or fails when none is.
pub open spec fn cc_line_step<S: Snapshot>(world: &S, m: Seq<u8>, line: Seq<char>, dir: Seq<char>, search: Seq<Seq<char>>)
    -> Result<Seq<u8>, Seq<char>>
{
    match cc_header(line) {
        None => Ok(m),
        Some(h) => match first_found(world, probes(dir, search, h)) {
            Some(c) => Ok(m + framed(utf8(c))),
            None => Err("cc: header `"@ + h + "` not found"@),
        },
    }
}

/// The compile message after some source lines, in order.
pub open spec fn cc_lines<S: Snapshot>(world: &S, acc: Seq<u8>, lines: Seq<Seq<char>>, dir: Seq<char>, search: Seq<Seq<char>>)
    -> Result<Seq<u8>, Seq<char>>
    decreases lines.len(),
{
    if lines.len() == 0 {
        Ok(acc)
    } else {
        match cc_lines(world, acc, lines.drop_last(), dir, search) {
            Err(e) => Err(e),
            Ok(m) => cc_line_step(world, m, lines.last(), dir, search),
        }
    }
}

/// The compile message after one input: its text, then its includes.
pub open spec fn cc_input_step<S: Snapshot>(world: &S, m: Seq<u8>, input: Seq<char>, search: Seq<Seq<char>>)
    -> Result<Seq<u8>, Seq<char>>
{
    match world.spec_read(input) {
        None => Err("cc: cannot read `"@ + input + "` (outside the mounts?)"@),
        Some(src) => cc_lines(world, m + framed(utf8(src)), crate::text::text_lines(src), own_dir(input), search),
    }
}

/// The compile message after the inputs, in order.
pub open spec fn cc_inputs<S: Snapshot>(world: &S, acc: Seq<u8>, inputs: Seq<Seq<char>>, search: Seq<Seq<char>>)
    -> Result<Seq<u8>, Seq<char>>
    decreases inputs.len(),
{
    if inputs.len() == 0 {
        Ok(acc)
    } else {
        match cc_inputs(world, acc, inputs.drop_last(), search) {
            Err(e) => Err(e),
            Ok(m) => cc_input_step(world, m, inputs.last(), search),
        }
    }
}

/// The reads of an include's probes, in order, up to and including the
/// first one found.
pub open spec fn probe_reads<S: Snapshot>(world: &S, probes: Seq<Seq<char>>) -> Seq<Access>
    decreases probes.len(),
{
    if probes.len() == 0 {
        seq![]
    } else if world.spec_read(probes[0]) is Some {
        seq![Access::Text(probes[0])]
    } else {
        seq![Access::Text(probes[0])] + probe_reads(world, probes.drop_first())
    }
}

/// The reads one source line makes: an include's probes.
pub open spec fn cc_line_reads<S: Snapshot>(world: &S, line: Seq<char>, dir: Seq<char>, search: Seq<Seq<char>>) -> Seq<Access> {
    match cc_header(line) {
        None => seq![],
        Some(h) => probe_reads(world, probes(dir, search, h)),
    }
}

/// The reads of source lines, in order, up to and including the first failing line.
pub open spec fn cc_lines_reads<S: Snapshot>(world: &S, acc: Seq<u8>, lines: Seq<Seq<char>>, dir: Seq<char>, search: Seq<Seq<char>>)
    -> Seq<Access>
    decreases lines.len(),
{
    if lines.len() == 0 {
        seq![]
    } else if cc_lines(world, acc, lines.drop_last(), dir, search) is Err {
        cc_lines_reads(world, acc, lines.drop_last(), dir, search)
    } else {
        cc_lines_reads(world, acc, lines.drop_last(), dir, search) + cc_line_reads(world, lines.last(), dir, search)
    }
}

/// The reads of one input: its text, then its lines' probes.
pub open spec fn cc_input_reads<S: Snapshot>(world: &S, m: Seq<u8>, input: Seq<char>, search: Seq<Seq<char>>) -> Seq<Access> {
    seq![Access::Text(input)] + match world.spec_read(input) {
        None => seq![],
        Some(src) => cc_lines_reads(world, m + framed(utf8(src)), crate::text::text_lines(src), own_dir(input), search),
    }
}

/// The reads of the inputs, in order, up to and including the first failing one.
pub open spec fn cc_reads<S: Snapshot>(world: &S, acc: Seq<u8>, inputs: Seq<Seq<char>>, search: Seq<Seq<char>>) -> Seq<Access>
    decreases inputs.len(),
{
    if inputs.len() == 0 {
        seq![]
    } else {
        match cc_inputs(world, acc, inputs.drop_last(), search) {
            Err(_) => cc_reads(world, acc, inputs.drop_last(), search),
            Ok(m) => cc_reads(world, acc, inputs.drop_last(), search) + cc_input_reads(world, m, inputs.last(), search),
        }
    }
}

/// The reads the fake C compiler makes.
pub open spec fn cc_tool_reads<S: Snapshot>(world: &S, v: Seq<(Seq<char>, Role)>) -> Seq<Access> {
    if all_outputs(v).len() == 0 {
        seq![]
    } else {
        cc_reads(world, utf8("vix-fake-cc-output"@) + flag_records(v), all_inputs(v), all_search_dirs(v))
    }
}

/// What the fake C compiler produces: (object path, contents), or its failure.
pub open spec fn cc_outcome<S: Snapshot>(world: &S, v: Seq<(Seq<char>, Role)>) -> Result<(Seq<char>, Seq<char>), Seq<char>> {
    if all_outputs(v).len() == 0 {
        Err("cc: no output"@)
    } else {
        match cc_inputs(world, utf8("vix-fake-cc-output"@) + flag_records(v), all_inputs(v), all_search_dirs(v)) {
            Ok(m) => Ok((all_outputs(v)[0], digest_label("obj"@, m))),
            Err(e) => Err(e),
        }
    }
}

/// One more line.
proof fn lemma_cc_lines_step<S: Snapshot>(world: &S, acc: Seq<u8>, lines: Seq<Seq<char>>, dir: Seq<char>, search: Seq<Seq<char>>, k: int)
    requires
        0 <= k < lines.len(),
    ensures
        cc_lines(world, acc, lines.take(k + 1), dir, search) == (match cc_lines(world, acc, lines.take(k), dir, search) {
            Err(e) => Err(e),
            Ok(m) => cc_line_step(world, m, lines[k], dir, search),
        }),
{
    assert(lines.take(k + 1).drop_last() == lines.take(k));
    assert(lines.take(k + 1).last() == lines[k]);
}

/// A failed line leaves every longer prefix failed the same way.
proof fn lemma_cc_lines_fail<S: Snapshot>(world: &S, acc: Seq<u8>, lines: Seq<Seq<char>>, dir: Seq<char>, search: Seq<Seq<char>>, n: int)
    requires
        0 <= n <= lines.len(),
        cc_lines(world, acc, lines.take(n), dir, search) is Err,
    ensures
        cc_lines(world, acc, lines, dir, search) == cc_lines(world, acc, lines.take(n), dir, search),
        cc_lines_reads(world, acc, lines, dir, search) == cc_lines_reads(world, acc, lines.take(n), dir, search),
    decreases lines.len() - n,
{
    if n < lines.len() {
        assert(lines.take(n + 1).drop_last() == lines.take(n));
        lemma_cc_lines_fail(world, acc, lines, dir, search, n + 1);
    } else {
        assert(lines.take(n) == lines);
    }
}

/// One more input.
proof fn lemma_cc_inputs_step<S: Snapshot>(world: &S, acc: Seq<u8>, inputs: Seq<Seq<char>>, search: Seq<Seq<char>>, k: int)
    requires
        0 <= k < inputs.len(),
    ensures
        cc_inputs(world, acc, inputs.take(k + 1), search) == (match cc_inputs(world, acc, inputs.take(k), search) {
            Err(e) => Err(e),
            Ok(m) => cc_input_step(world, m, inputs[k], search),
        }),
{
    assert(inputs.take(k + 1).drop_last() == inputs.take(k));
    assert(inputs.take(k + 1).last() == inputs[k]);
}

/// A failed input leaves every longer prefix failed the same way.
proof fn lemma_cc_inputs_fail<S: Snapshot>(world: &S, acc: Seq<u8>, inputs: Seq<Seq<char>>, search: Seq<Seq<char>>, n: int)
    requires
        0 <= n <= inputs.len(),
        cc_inputs(world, acc, inputs.take(n), search) is Err,
    ensures
        cc_inputs(world, acc, inputs, search) == cc_inputs(world, acc, inputs.take(n), search),
        cc_reads(world, acc, inputs, search) == cc_reads(world, acc, inputs.take(n), search),
    decreases inputs.len() - n,
{
    if n < inputs.len() {
        assert(inputs.take(n + 1).drop_last() == inputs.take(n));
        lemma_cc_inputs_fail(world, acc, inputs, search, n + 1);
    } else {
        assert(inputs.take(n) == inputs);
    }
}

/// The header a line includes.
fn cc_header_exec(line: &[char]) -> (r: Option<Vec<char>>)
    ensures
        match cc_header(line@) {
            Some(h) => r matches Some(x) && x@ == h,
            None => r is None,
        },
{
    let t = crate::text::trim_ws_chars(line);
    let prefix = chars_of("#include \"");
    proof { reveal_strlit("#include \""); }
    if crate::text::chars_start_with(t.as_slice(), prefix.as_slice()) && t.len() >= 11 && t[t.len() - 1] == '"' {
        Some(crate::text::slice_chars(t.as_slice(), 10, t.len() - 1))
    } else {
        None
    }
}

/// The directory of an input path.
fn own_dir_exec(input: &str) -> (d: String)
    ensures
        d@ == own_dir(input@),
{
    let cs = chars_of(input);
    match crate::text::rfind_char_exec(cs.as_slice(), '/') {
        Some(i) => {
            proof { crate::text::lemma_rfind_char_bounds(cs@, '/'); }
            assert(cs@.subrange(0, i as int) == input@.take(i as int));
            string_of(crate::text::slice_chars(cs.as_slice(), 0, i).as_slice())
        },
        None => String::new(),
    }
}

/// `dir/header`.
fn joined(dir: &str, header: &str) -> (p: String)
    ensures
        p@ == dir@ + "/"@ + header@,
{
    wrapped(dir, "/", header)
}

/// The probes of an include, in order.
fn probes_exec(dir: &str, search: &Vec<String>, header: &str) -> (out: Vec<String>)
    ensures
        string_views(out@) == probes(dir@, string_views(search@), header@),
{
    let mut out: Vec<String> = Vec::new();
    if chars_of(dir).len() > 0 {
        out.push(joined(dir, header));
    }
    let ghost first = string_views(out@);
    assert(first =~= (if dir@.len() > 0 { seq![dir@ + "/"@ + header@] } else { Seq::<Seq<char>>::empty() }));
    let ghost sv = string_views(search@);
    let mut i: usize = 0;
    while i < search.len()
        invariant
            i <= search@.len(),
            sv == string_views(search@),
            string_views(out@) == first + sv.take(i as int).map_values(|d: Seq<char>| d + "/"@ + header@),
        decreases search@.len() - i,
    {
        let ghost before = string_views(out@);
        out.push(joined(search[i].as_str(), header));
        proof {
            assert(string_views(out@) =~= before.push(sv[i as int] + "/"@ + header@));
            assert(sv.take(i as int + 1).map_values(|d: Seq<char>| d + "/"@ + header@)
                =~= sv.take(i as int).map_values(|d: Seq<char>| d + "/"@ + header@).push(sv[i as int] + "/"@ + header@));
        }
        i = i + 1;
    }
    assert(sv.take(search@.len() as int) =~= sv);
    out
}

/// Reads the probes in order until one is found.
fn probe_first<'a, S: Snapshot>(world: &mut ObservedWorld<'a, S>, probes: &Vec<String>) -> (r: Option<String>)
    ensures
        final(world).world() == old(world).world(),
        final(world).observed() == recorded(old(world).observed(), old(world).world(),
            probe_reads(old(world).world(), string_views(probes@))),
        match first_found(old(world).world(), string_views(probes@)) {
            Some(c) => r matches Some(x) && x@ == c,
            None => r is None,
        },
{
    let ghost w = world.world();
    let ghost pv = string_views(probes@);
    let mut i: usize = 0;
    assert(pv.skip(0) == pv);
    assert(recorded(world.observed(), w, Seq::<Access>::empty()) == world.observed());
    while i < probes.len()
        invariant
            i <= probes@.len(),
            world.world() == w,
            w == old(world).world(),
            pv == string_views(probes@),
            first_found(w, pv) == first_found(w, pv.skip(i as int)),
            recorded(old(world).observed(), w, probe_reads(w, pv))
                == recorded(world.observed(), w, probe_reads(w, pv.skip(i as int))),
        decreases probes@.len() - i,
    {
        let ghost o = world.observed();
        let got = read_text(world, probes[i].as_str());
        proof {
            let rest = pv.skip(i as int);
            assert(rest[0] == probes@[i as int]@);
            assert(rest.drop_first() == pv.skip(i as int + 1));
            let a = seq![Access::Text(rest[0])];
            if got.is_some() {
                assert(probe_reads(w, rest) == a);
            } else {
                assert(probe_reads(w, rest) == a + probe_reads(w, rest.drop_first()));
                lemma_recorded_concat(o, w, a, probe_reads(w, rest.drop_first()));
            }
        }
        if got.is_some() {
            return got;
        }
        i = i + 1;
    }
    proof {
        assert(pv.skip(i as int).len() == 0);
        assert(probe_reads(w, pv.skip(i as int)) == Seq::<Access>::empty());
    }
    None
}

/// Compiles one line of a source into `m`.
fn cc_line<'a, S: Snapshot>(world: &mut ObservedWorld<'a, S>, m: &mut Vec<u8>, line: &[char], dir: &str, search: &Vec<String>)
    -> (r: Result<(), String>)
    ensures
        final(world).world() == old(world).world(),
        final(world).observed() == recorded(old(world).observed(), old(world).world(),
            cc_line_reads(old(world).world(), line@, dir@, string_views(search@))),
        match cc_line_step(old(world).world(), old(m)@, line@, dir@, string_views(search@)) {
            Ok(x) => r is Ok && final(m)@ == x,
            Err(e) => r matches Err(s) && s@ == e,
        },
{
    let header = match cc_header_exec(line) {
        Some(h) => string_of(h.as_slice()),
        None => return Ok(()),
    };
    let candidates = probes_exec(dir, search, header.as_str());
    match probe_first(world, &candidates) {
        Some(contents) => {
            append_framed_str(m, contents.as_str());
            Ok(())
        },
        None => Err(wrapped("cc: header `", header.as_str(), "` not found")),
    }
}

/// Compiles one input into `m`: its text, then its includes.
fn cc_input<'a, S: Snapshot>(world: &mut ObservedWorld<'a, S>, m: &mut Vec<u8>, input: &str, search: &Vec<String>)
    -> (r: Result<(), String>)
    ensures
        final(world).world() == old(world).world(),
        final(world).observed() == recorded(old(world).observed(), old(world).world(),
            cc_input_reads(old(world).world(), old(m)@, input@, string_views(search@))),
        match cc_input_step(old(world).world(), old(m)@, input@, string_views(search@)) {
            Ok(x) => r is Ok && final(m)@ == x,
            Err(e) => r matches Err(s) && s@ == e,
        },
{
    let ghost w = world.world();
    let ghost o0 = world.observed();
    let ghost a = seq![Access::Text(input@)];
    let source = match read_text(world, input) {
        Some(source) => source,
        None => {
            assert(cc_input_reads(w, old(m)@, input@, string_views(search@)) =~= a);
            return Err(wrapped("cc: cannot read `", input, "` (outside the mounts?)"));
        },
    };
    let ghost o1 = world.observed();
    append_framed_str(m, source.as_str());
    let dir = own_dir_exec(input);
    let src = chars_of(source.as_str());
    let lines = text_lines_exec_vec(src.as_slice());
    let ghost m1 = m@;
    let r = cc_all_lines(world, m, &lines, dir.as_str(), search);
    proof {
        let b = cc_lines_reads(w, m1, lines@.map_values(|v: Vec<char>| v@), dir@, string_views(search@));
        assert(cc_input_reads(w, old(m)@, input@, string_views(search@)) == a + b);
        lemma_recorded_concat(o0, w, a, b);
    }
    r
}

/// Compiles source lines into `m`, in order.
fn cc_all_lines<'a, S: Snapshot>(world: &mut ObservedWorld<'a, S>, m: &mut Vec<u8>, lines: &Vec<Vec<char>>, dir: &str, search: &Vec<String>)
    -> (r: Result<(), String>)
    ensures
        final(world).world() == old(world).world(),
        final(world).observed() == recorded(old(world).observed(), old(world).world(),
            cc_lines_reads(old(world).world(), old(m)@, lines@.map_values(|v: Vec<char>| v@), dir@, string_views(search@))),
        match cc_lines(old(world).world(), old(m)@, lines@.map_values(|v: Vec<char>| v@), dir@, string_views(search@)) {
            Ok(x) => r is Ok && final(m)@ == x,
            Err(e) => r matches Err(s) && s@ == e,
        },
{
    let ghost w = world.world();
    let ghost acc = m@;
    let ghost lv = lines@.map_values(|v: Vec<char>| v@);
    let mut k: usize = 0;
    while k < lines.len()
        invariant
            k <= lines@.len(),
            world.world() == w,
            w == old(world).world(),
            acc == old(m)@,
            lv == lines@.map_values(|v: Vec<char>| v@),
            cc_lines(w, acc, lv.take(k as int), dir@, string_views(search@)) == Ok::<Seq<u8>, Seq<char>>(m@),
            world.observed() == recorded(old(world).observed(), w,
                cc_lines_reads(w, acc, lv.take(k as int), dir@, string_views(search@))),
        decreases lines@.len() - k,
    {
        proof {
            lemma_cc_lines_step(w, acc, lv, dir@, string_views(search@), k as int);
            assert(lv[k as int] == lines@[k as int]@);
            let t = lv.take(k as int + 1);
            assert(t.drop_last() == lv.take(k as int));
            assert(t.last() == lv[k as int]);
            assert(cc_lines_reads(w, acc, t, dir@, string_views(search@))
                == cc_lines_reads(w, acc, t.drop_last(), dir@, string_views(search@))
                    + cc_line_reads(w, lv[k as int], dir@, string_views(search@)));
            lemma_recorded_concat(old(world).observed(), w, cc_lines_reads(w, acc, t.drop_last(), dir@, string_views(search@)),
                cc_line_reads(w, lv[k as int], dir@, string_views(search@)));
        }
        match cc_line(world, m, lines[k].as_slice(), dir, search) {
            Ok(()) => {},
            Err(e) => {
                proof { lemma_cc_lines_fail(w, acc, lv, dir@, string_views(search@), k as int + 1); }
                return Err(e);
            },
        }
        k = k + 1;
    }
    assert(lv.take(lines@.len() as int) == lv);
    Ok(())
}

/// The lines of a text, as character vectors.
fn text_lines_exec_vec(s: &[char]) -> (out: Vec<Vec<char>>)
    ensures
        out@.map_values(|v: Vec<char>| v@) == crate::text::text_lines(s@),
{
    crate::text::text_lines_exec(s)
}

/// Compiles every input into `m`, in order.
fn cc_all_inputs<'a, S: Snapshot>(world: &mut ObservedWorld<'a, S>, m: &mut Vec<u8>, inputs: &Vec<String>, search: &Vec<String>)
    -> (r: Result<(), String>)
    ensures
        final(world).world() == old(world).world(),
        final(world).observed() == recorded(old(world).observed(), old(world).world(),
            cc_reads(old(world).world(), old(m)@, string_views(inputs@), string_views(search@))),
        match cc_inputs(old(world).world(), old(m)@, string_views(inputs@), string_views(search@)) {
            Ok(x) => r is Ok && final(m)@ == x,
            Err(e) => r matches Err(s) && s@ == e,
        },
{
    let ghost w = world.world();
    let ghost acc = m@;
    let ghost iv = string_views(inputs@);
    let mut i: usize = 0;
    while i < inputs.len()
        invariant
            i <= inputs@.len(),
            world.world() == w,
            w == old(world).world(),
            acc == old(m)@,
            iv == string_views(inputs@),
            cc_inputs(w, acc, iv.take(i as int), string_views(search@)) == Ok::<Seq<u8>, Seq<char>>(m@),
            world.observed() == recorded(old(world).observed(), w, cc_reads(w, acc, iv.take(i as int), string_views(search@))),
        decreases inputs@.len() - i,
    {
        let input = inputs[i].as_str();
        proof {
            lemma_cc_inputs_step(w, acc, iv, string_views(search@), i as int);
            assert(iv[i as int] == input@);
            let t = iv.take(i as int + 1);
            assert(t.drop_last() == iv.take(i as int));
            assert(t.last() == input@);
            assert(cc_reads(w, acc, t, string_views(search@))
                == cc_reads(w, acc, t.drop_last(), string_views(search@)) + cc_input_reads(w, m@, input@, string_views(search@)));
            lemma_recorded_concat(old(world).observed(), w, cc_reads(w, acc, t.drop_last(), string_views(search@)),
                cc_input_reads(w, m@, input@, string_views(search@)));
        }
        match cc_input(world, m, input, search) {
            Ok(()) => {},
            Err(e) => {
                proof { lemma_cc_inputs_fail(w, acc, iv, string_views(search@), i as int + 1); }
                return Err(e);
            },
        }
        i = i + 1;
    }
    assert(iv.take(inputs@.len() as int) == iv);
    Ok(())
}

/// Reads its inputs; for every `#include "x"` line probes the including
/// file's own directory, then the search directories in order (misses are
/// observed absences); "compiles" by hashing everything it read.
pub struct FakeCc;

impl<S: Snapshot> Tool<S> for FakeCc {
    open spec fn reads(&self, world: &S, plan: Seq<(Seq<char>, Role)>) -> Seq<Access> {
        cc_tool_reads(world, plan)
    }

    open spec fn outcome(&self, world: &S, plan: Seq<(Seq<char>, Role)>) -> Result<ToolFiles, Seq<char>> {
        match cc_outcome(world, plan) {
            Ok((path, contents)) => Ok((map![path => contents], Map::empty())),
            Err(e) => Err(e),
        }
    }

    fn run<'a>(&self, plan: &ExecPlan, world: &mut ObservedWorld<'a, S>) -> (r: Result<Tree, String>)
        ensures
            final(world).observed() == recorded(old(world).observed(), old(world).world(),
                cc_tool_reads(old(world).world(), plan@)),
            match cc_outcome(old(world).world(), plan@) {
                Ok((path, contents)) => r matches Ok(t) && t.text_map() == map![path => contents]
                    && t.blob_map() == Map::<Seq<char>, Seq<u8>>::empty(),
                Err(e) => r matches Err(s) && s@ == e,
            },
    {
        let search = collect_paths(plan, PathKind::SearchDirs);
        let outputs = collect_paths(plan, PathKind::Outputs);
        if outputs.len() == 0 {
            return Err(owned("cc: no output"));
        }
        let mut m: Vec<u8> = Vec::new();
        append_str(&mut m, "vix-fake-cc-output");
        append_flags(&mut m, plan);
        let inputs = collect_paths(plan, PathKind::Inputs);
        match cc_all_inputs(world, &mut m, &inputs, &search) {
            Ok(()) => {},
            Err(e) => return Err(e),
        }
        let label = digest_label_exec("obj", &m);
        Ok(one_file(outputs[0].as_str(), label.as_str()))
    }
}


// ---------------------------------------------------------------------------
// The fake rustc
// ---------------------------------------------------------------------------

/// The rustc message after reading the text of some input paths.
pub open spec fn rustc_texts<S: Snapshot>(world: &S, acc: Seq<u8>, paths: Seq<Seq<char>>) -> Result<Seq<u8>, Seq<char>>
    decreases paths.len(),
{
    if paths.len() == 0 {
        Ok(acc)
    } else {
        match rustc_texts(world, acc, paths.drop_last()) {
            Err(e) => Err(e),
            Ok(m) => match world.spec_read(paths.last()) {
                Some(c) => Ok(m + framed(utf8(c))),
                None => Err("rustc: cannot read `"@ + paths.last() + "` (outside the mounts?)"@),
            },
        }
    }
}

/// The rustc message after reading the bytes of some executables.
pub open spec fn rustc_blobs<S: Snapshot>(world: &S, acc: Seq<u8>, paths: Seq<Seq<char>>) -> Result<Seq<u8>, Seq<char>>
    decreases paths.len(),
{
    if paths.len() == 0 {
        Ok(acc)
    } else {
        match rustc_blobs(world, acc, paths.drop_last()) {
            Err(e) => Err(e),
            Ok(m) => match world.spec_read_bytes(paths.last()) {
                Some(b) => Ok(m + framed(b)),
                None => Err("rustc: cannot read executable `"@ + paths.last() + "` (outside the mounts?)"@),
            },
        }
    }
}

/// With the crate type: keep the message, or fail.
pub open spec fn with_crate_type(r: Result<Seq<u8>, Seq<char>>, ct: Seq<char>) -> Result<(Seq<u8>, Seq<char>), Seq<char>> {
    match r {
        Ok(m) => Ok((m, ct)),
        Err(e) => Err(e),
    }
}

/// The rustc state after argument `i`: flags, search directories and
/// environment bindings are hashed (a flag right after `--crate-type` sets
/// the crate type); inputs are read as text, executables as bytes; outputs
/// add nothing.
pub open spec fn rustc_arg_step<S: Snapshot>(world: &S, m: Seq<u8>, ct: Seq<char>, v: Seq<(Seq<char>, Role)>, i: int)
    -> Result<(Seq<u8>, Seq<char>), Seq<char>>
{
    let (arg, role) = v[i];
    match role {
        Role::Flag => Ok((m + framed(utf8(arg)), if i > 0 && v[i - 1].0 == "--crate-type"@ { arg } else { ct })),
        Role::SearchDir | Role::SearchDirFlag | Role::Env => Ok((m + framed(utf8(arg)), ct)),
        Role::Output | Role::OutputFlag | Role::OutputDir | Role::Stdout => Ok((m, ct)),
        Role::Input | Role::InputFlag => with_crate_type(rustc_texts(world, m, input_paths(arg, role)), ct),
        Role::Executable => with_crate_type(rustc_blobs(world, m, input_paths(arg, role)), ct),
    }
}

/// The rustc message and crate type after the first `n` arguments.
pub open spec fn rustc_args<S: Snapshot>(world: &S, acc: Seq<u8>, v: Seq<(Seq<char>, Role)>, n: int)
    -> Result<(Seq<u8>, Seq<char>), Seq<char>>
    decreases n,
{
    if n <= 0 {
        Ok((acc, "lib"@))
    } else {
        match rustc_args(world, acc, v, n - 1) {
            Err(e) => Err(e),
            Ok((m, ct)) => rustc_arg_step(world, m, ct, v, n - 1),
        }
    }
}

/// The text reads of some paths, up to and including the first unreadable one.
pub open spec fn rustc_text_reads<S: Snapshot>(world: &S, acc: Seq<u8>, paths: Seq<Seq<char>>) -> Seq<Access>
    decreases paths.len(),
{
    if paths.len() == 0 {
        seq![]
    } else if rustc_texts(world, acc, paths.drop_last()) is Err {
        rustc_text_reads(world, acc, paths.drop_last())
    } else {
        rustc_text_reads(world, acc, paths.drop_last()).push(Access::Text(paths.last()))
    }
}

/// The byte reads of some executables, up to and including the first unreadable one.
pub open spec fn rustc_blob_reads<S: Snapshot>(world: &S, acc: Seq<u8>, paths: Seq<Seq<char>>) -> Seq<Access>
    decreases paths.len(),
{
    if paths.len() == 0 {
        seq![]
    } else if rustc_blobs(world, acc, paths.drop_last()) is Err {
        rustc_blob_reads(world, acc, paths.drop_last())
    } else {
        rustc_blob_reads(world, acc, paths.drop_last()).push(Access::Bytes(paths.last()))
    }
}

/// The reads argument `i` makes: an input's text, an executable's bytes.
pub open spec fn rustc_arg_reads<S: Snapshot>(world: &S, m: Seq<u8>, v: Seq<(Seq<char>, Role)>, i: int) -> Seq<Access> {
    let (arg, role) = v[i];
    match role {
        Role::Input | Role::InputFlag => rustc_text_reads(world, m, input_paths(arg, role)),
        Role::Executable => rustc_blob_reads(world, m, input_paths(arg, role)),
        _ => seq![],
    }
}

/// The reads of the first `n` arguments, up to and including the first failing one.
pub open spec fn rustc_reads<S: Snapshot>(world: &S, acc: Seq<u8>, v: Seq<(Seq<char>, Role)>, n: int) -> Seq<Access>
    decreases n,
{
    if n <= 0 {
        seq![]
    } else {
        match rustc_args(world, acc, v, n - 1) {
            Err(_) => rustc_reads(world, acc, v, n - 1),
            Ok((m, _)) => rustc_reads(world, acc, v, n - 1) + rustc_arg_reads(world, m, v, n - 1),
        }
    }
}

/// The reads the fake rustc makes.
pub open spec fn rustc_tool_reads<S: Snapshot>(world: &S, v: Seq<(Seq<char>, Role)>) -> Seq<Access> {
    if all_outputs(v).len() == 0 && all_stdouts(v).len() == 0 {
        seq![]
    } else {
        rustc_reads(world, utf8("vix-fake-rustc-output"@), v, v.len() as int)
    }
}

/// The artifact kind of an output path under a crate type.
pub open spec fn artifact_kind(output: Seq<char>, ct: Seq<char>) -> Seq<char> {
    if crate::text::has_suffix(output, ".rmeta"@) {
        "rmeta"@
    } else if ct == "proc-macro"@ || crate::text::has_suffix(output, ".dylib"@)
        || crate::text::has_suffix(output, ".so"@) || crate::text::has_suffix(output, ".dll"@) {
        "proc-macro"@
    } else if ct == "bin"@ {
        "bin"@
    } else {
        "rlib"@
    }
}

/// The first argument after a `--target`, scanning from `i`.
pub open spec fn target_from(v: Seq<(Seq<char>, Role)>, i: int) -> Option<Seq<char>>
    decreases v.len() - i,
{
    if i < 0 || i + 1 >= v.len() {
        None
    } else if v[i].0 == "--target"@ {
        Some(v[i + 1].0)
    } else {
        target_from(v, i + 1)
    }
}

/// The target triple a plan names, by default `x86_64-unknown-linux-gnu`.
pub open spec fn target_of(v: Seq<(Seq<char>, Role)>) -> Seq<char> {
    match target_from(v, 0) {
        Some(t) => t,
        None => "x86_64-unknown-linux-gnu"@,
    }
}

/// The `--print cfg` text for a target.
pub open spec fn cfg_text(target: Seq<char>) -> Seq<char> {
    if crate::text::has_infix(target, "windows"@) {
        "target_arch=\"x86_64\"\ntarget_family=\"windows\"\ntarget_os=\"windows\"\nwindows\n"@
    } else if crate::text::has_infix(target, "wasm32"@) {
        "target_arch=\"wasm32\"\ntarget_family=\"wasm\"\ntarget_os=\"unknown\"\n"@
    } else if crate::text::has_infix(target, "darwin"@) || crate::text::has_infix(target, "apple"@) {
        "target_arch=\"aarch64\"\ntarget_family=\"unix\"\ntarget_os=\"macos\"\nunix\n"@
    } else {
        "target_arch=\"x86_64\"\ntarget_family=\"unix\"\ntarget_os=\"linux\"\nunix\n"@
    }
}

/// The entries the fake rustc writes: one artifact per output, then the cfg
/// text at each stdout capture.
pub open spec fn rustc_rows(v: Seq<(Seq<char>, Role)>, ct: Seq<char>, digest: Seq<char>) -> Seq<(Seq<char>, Seq<char>)> {
    all_outputs(v).map_values(|o: Seq<char>| (o, artifact_kind(o, ct) + "("@ + digest + ")"@))
        + all_stdouts(v).map_values(|p: Seq<char>| (p, cfg_text(target_of(v))))
}

/// What the fake rustc produces: its entries, or its failure.
pub open spec fn rustc_outcome<S: Snapshot>(world: &S, v: Seq<(Seq<char>, Role)>) -> Result<Seq<(Seq<char>, Seq<char>)>, Seq<char>> {
    if all_outputs(v).len() == 0 && all_stdouts(v).len() == 0 {
        Err("rustc: no output"@)
    } else {
        match rustc_args(world, utf8("vix-fake-rustc-output"@), v, v.len() as int) {
            Err(e) => Err(e),
            Ok((m, ct)) => Ok(rustc_rows(v, ct, hex_of(blake3_digest(m)@))),
        }
    }
}

/// A failed prefix of texts stays failed.
proof fn lemma_rustc_texts_fail<S: Snapshot>(world: &S, acc: Seq<u8>, paths: Seq<Seq<char>>, n: int)
    requires
        0 <= n <= paths.len(),
        rustc_texts(world, acc, paths.take(n)) is Err,
    ensures
        rustc_texts(world, acc, paths) == rustc_texts(world, acc, paths.take(n)),
        rustc_text_reads(world, acc, paths) == rustc_text_reads(world, acc, paths.take(n)),
    decreases paths.len() - n,
{
    if n < paths.len() {
        assert(paths.take(n + 1).drop_last() == paths.take(n));
        lemma_rustc_texts_fail(world, acc, paths, n + 1);
    } else {
        assert(paths.take(n) == paths);
    }
}

/// A failed prefix of executables stays failed.
proof fn lemma_rustc_blobs_fail<S: Snapshot>(world: &S, acc: Seq<u8>, paths: Seq<Seq<char>>, n: int)
    requires
        0 <= n <= paths.len(),
        rustc_blobs(world, acc, paths.take(n)) is Err,
    ensures
        rustc_blobs(world, acc, paths) == rustc_blobs(world, acc, paths.take(n)),
        rustc_blob_reads(world, acc, paths) == rustc_blob_reads(world, acc, paths.take(n)),
    decreases paths.len() - n,
{
    if n < paths.len() {
        assert(paths.take(n + 1).drop_last() == paths.take(n));
        lemma_rustc_blobs_fail(world, acc, paths, n + 1);
    } else {
        assert(paths.take(n) == paths);
    }
}

/// A failed prefix of arguments stays failed.
proof fn lemma_rustc_args_fail<S: Snapshot>(world: &S, acc: Seq<u8>, v: Seq<(Seq<char>, Role)>, n: int, total: int)
    requires
        0 <= n <= total,
        rustc_args(world, acc, v, n) is Err,
    ensures
        rustc_args(world, acc, v, total) == rustc_args(world, acc, v, n),
        rustc_reads(world, acc, v, total) == rustc_reads(world, acc, v, n),
    decreases total - n,
{
    if n < total {
        lemma_rustc_args_fail(world, acc, v, n + 1, total);
    }
}

/// Reads the text of each path into `m`.
fn rustc_read_texts<'a, S: Snapshot>(world: &mut ObservedWorld<'a, S>, m: &mut Vec<u8>, paths: &Vec<String>)
    -> (r: Result<(), String>)
    ensures
        final(world).world() == old(world).world(),
        final(world).observed() == recorded(old(world).observed(), old(world).world(),
            rustc_text_reads(old(world).world(), old(m)@, string_views(paths@))),
        match rustc_texts(old(world).world(), old(m)@, string_views(paths@)) {
            Ok(x) => r is Ok && final(m)@ == x,
            Err(e) => r matches Err(s) && s@ == e,
        },
{
    let ghost w = world.world();
    let ghost acc = m@;
    let ghost pv = string_views(paths@);
    let mut i: usize = 0;
    while i < paths.len()
        invariant
            i <= paths@.len(),
            world.world() == w,
            w == old(world).world(),
            acc == old(m)@,
            pv == string_views(paths@),
            rustc_texts(w, acc, pv.take(i as int)) == Ok::<Seq<u8>, Seq<char>>(m@),
            world.observed() == recorded(old(world).observed(), w, rustc_text_reads(w, acc, pv.take(i as int))),
        decreases paths@.len() - i,
    {
        proof {
            let t = pv.take(i as int + 1);
            assert(t.drop_last() == pv.take(i as int));
            assert(t.last() == paths@[i as int]@);
            assert(rustc_text_reads(w, acc, t) == rustc_text_reads(w, acc, t.drop_last()) + seq![Access::Text(t.last())]);
            lemma_recorded_concat(old(world).observed(), w, rustc_text_reads(w, acc, t.drop_last()), seq![Access::Text(t.last())]);
        }
        match read_text(world, paths[i].as_str()) {
            Some(source) => append_framed_str(m, source.as_str()),
            None => {
                proof { lemma_rustc_texts_fail(w, acc, pv, i as int + 1); }
                return Err(wrapped("rustc: cannot read `", paths[i].as_str(), "` (outside the mounts?)"));
            },
        }
        i = i + 1;
    }
    assert(pv.take(paths@.len() as int) == pv);
    Ok(())
}

/// Reads the bytes of each executable into `m`.
fn rustc_read_blobs<'a, S: Snapshot>(world: &mut ObservedWorld<'a, S>, m: &mut Vec<u8>, paths: &Vec<String>)
    -> (r: Result<(), String>)
    ensures
        final(world).world() == old(world).world(),
        final(world).observed() == recorded(old(world).observed(), old(world).world(),
            rustc_blob_reads(old(world).world(), old(m)@, string_views(paths@))),
        match rustc_blobs(old(world).world(), old(m)@, string_views(paths@)) {
            Ok(x) => r is Ok && final(m)@ == x,
            Err(e) => r matches Err(s) && s@ == e,
        },
{
    let ghost w = world.world();
    let ghost acc = m@;
    let ghost pv = string_views(paths@);
    let mut i: usize = 0;
    while i < paths.len()
        invariant
            i <= paths@.len(),
            world.world() == w,
            w == old(world).world(),
            acc == old(m)@,
            pv == string_views(paths@),
            rustc_blobs(w, acc, pv.take(i as int)) == Ok::<Seq<u8>, Seq<char>>(m@),
            world.observed() == recorded(old(world).observed(), w, rustc_blob_reads(w, acc, pv.take(i as int))),
        decreases paths@.len() - i,
    {
        proof {
            let t = pv.take(i as int + 1);
            assert(t.drop_last() == pv.take(i as int));
            assert(t.last() == paths@[i as int]@);
            assert(rustc_blob_reads(w, acc, t) == rustc_blob_reads(w, acc, t.drop_last()) + seq![Access::Bytes(t.last())]);
            lemma_recorded_concat(old(world).observed(), w, rustc_blob_reads(w, acc, t.drop_last()), seq![Access::Bytes(t.last())]);
        }
        match read_raw(world, paths[i].as_str()) {
            Some(bytes) => append_framed(m, bytes.as_slice()),
            None => {
                proof { lemma_rustc_blobs_fail(w, acc, pv, i as int + 1); }
                return Err(wrapped("rustc: cannot read executable `", paths[i].as_str(), "` (outside the mounts?)"));
            },
        }
        i = i + 1;
    }
    assert(pv.take(paths@.len() as int) == pv);
    Ok(())
}

/// One argument's effect on the rustc message and crate type.
fn rustc_arg<'a, S: Snapshot>(world: &mut ObservedWorld<'a, S>, m: &mut Vec<u8>, ct: &mut String, plan: &ExecPlan, i: usize)
    -> (r: Result<(), String>)
    requires
        i < plan.argv@.len(),
    ensures
        final(world).world() == old(world).world(),
        final(world).observed() == recorded(old(world).observed(), old(world).world(),
            rustc_arg_reads(old(world).world(), old(m)@, plan@, i as int)),
        match rustc_arg_step(old(world).world(), old(m)@, old(ct)@, plan@, i as int) {
            Ok((x, c)) => r is Ok && final(m)@ == x && final(ct)@ == c,
            Err(e) => r matches Err(s) && s@ == e,
        },
{
    let (arg, role) = &plan.argv[i];
    assert(plan@[i as int] == (arg@, *role));
    match role {
        Role::Flag => {
            append_framed_str(m, arg.as_str());
            if i > 0 {
                let (prev, _) = &plan.argv[i - 1];
                assert(plan@[i - 1].0 == prev@);
                if crate::text::str_eq(prev.as_str(), "--crate-type") {
                    *ct = owned(arg.as_str());
                }
            }
            Ok(())
        },
        Role::SearchDir | Role::SearchDirFlag | Role::Env => {
            append_framed_str(m, arg.as_str());
            Ok(())
        },
        Role::Output | Role::OutputFlag | Role::OutputDir | Role::Stdout => Ok(()),
        Role::Input | Role::InputFlag => {
            let paths = role_input_paths(arg.as_str(), *role);
            rustc_read_texts(world, m, &paths)
        },
        Role::Executable => {
            let paths = role_input_paths(arg.as_str(), *role);
            rustc_read_blobs(world, m, &paths)
        },
    }
}

/// The target a plan names.
fn target_exec(plan: &ExecPlan) -> (t: String)
    ensures
        t@ == target_of(plan@),
{
    let n = plan.argv.len();
    let mut i: usize = 0;
    while i < n && i + 1 < n
        invariant
            n == plan.argv@.len(),
            n == plan@.len(),
            i <= n,
            target_from(plan@, 0) == target_from(plan@, i as int),
        decreases n - i,
    {
        let (arg, _) = &plan.argv[i];
        assert(plan@[i as int].0 == arg@);
        if crate::text::str_eq(arg.as_str(), "--target") {
            let (next, _) = &plan.argv[i + 1];
            assert(plan@[i + 1].0 == next@);
            return owned(next.as_str());
        }
        i = i + 1;
    }
    owned("x86_64-unknown-linux-gnu")
}

/// Whether `s` contains `word`.
fn mentions(s: &str, word: &str) -> (b: bool)
    ensures
        b == crate::text::has_infix(s@, word@),
{
    let a = chars_of(s);
    let b = chars_of(word);
    crate::text::chars_contain(a.as_slice(), b.as_slice())
}

/// The `--print cfg` text for a target.
fn cfg_text_exec(target: &str) -> (s: String)
    ensures
        s@ == cfg_text(target@),
{
    if mentions(target, "windows") {
        owned("target_arch=\"x86_64\"\ntarget_family=\"windows\"\ntarget_os=\"windows\"\nwindows\n")
    } else if mentions(target, "wasm32") {
        owned("target_arch=\"wasm32\"\ntarget_family=\"wasm\"\ntarget_os=\"unknown\"\n")
    } else if mentions(target, "darwin") || mentions(target, "apple") {
        owned("target_arch=\"aarch64\"\ntarget_family=\"unix\"\ntarget_os=\"macos\"\nunix\n")
    } else {
        owned("target_arch=\"x86_64\"\ntarget_family=\"unix\"\ntarget_os=\"linux\"\nunix\n")
    }
}

/// Whether `s` ends with `suffix`.
fn ends_with(s: &str, suffix: &str) -> (b: bool)
    ensures
        b == crate::text::has_suffix(s@, suffix@),
{
    let a = chars_of(s);
    let b = chars_of(suffix);
    crate::text::chars_end_with(a.as_slice(), b.as_slice())
}

/// The artifact kind of an output.
fn artifact_kind_exec(output: &str, ct: &str) -> (k: &'static str)
    ensures
        k@ == artifact_kind(output@, ct@),
{
    if ends_with(output, ".rmeta") {
        "rmeta"
    } else if crate::text::str_eq(ct, "proc-macro") || ends_with(output, ".dylib") || ends_with(output, ".so")
        || ends_with(output, ".dll") {
        "proc-macro"
    } else if crate::text::str_eq(ct, "bin") {
        "bin"
    } else {
        "rlib"
    }
}

/// Every argument's effect on the rustc message, in order; the crate type
/// they leave.
fn rustc_all_args<'a, S: Snapshot>(world: &mut ObservedWorld<'a, S>, m: &mut Vec<u8>, plan: &ExecPlan)
    -> (r: Result<String, String>)
    ensures
        final(world).world() == old(world).world(),
        final(world).observed() == recorded(old(world).observed(), old(world).world(),
            rustc_reads(old(world).world(), old(m)@, plan@, plan@.len() as int)),
        match rustc_args(old(world).world(), old(m)@, plan@, plan@.len() as int) {
            Ok((x, c)) => r matches Ok(ct) && ct@ == c && final(m)@ == x,
            Err(e) => r matches Err(s) && s@ == e,
        },
{
    let mut ct = owned("lib");
    let ghost w = world.world();
    let ghost acc = m@;
    let mut i: usize = 0;
    while i < plan.argv.len()
        invariant
            i <= plan.argv@.len(),
            plan@.len() == plan.argv@.len(),
            world.world() == w,
            w == old(world).world(),
            acc == old(m)@,
            rustc_args(w, acc, plan@, i as int) == Ok::<(Seq<u8>, Seq<char>), Seq<char>>((m@, ct@)),
            world.observed() == recorded(old(world).observed(), w, rustc_reads(w, acc, plan@, i as int)),
        decreases plan.argv@.len() - i,
    {
        proof {
            assert(rustc_reads(w, acc, plan@, i as int + 1)
                == rustc_reads(w, acc, plan@, i as int) + rustc_arg_reads(w, m@, plan@, i as int));
            lemma_recorded_concat(old(world).observed(), w, rustc_reads(w, acc, plan@, i as int),
                rustc_arg_reads(w, m@, plan@, i as int));
        }
        match rustc_arg(world, m, &mut ct, plan, i) {
            Ok(()) => {},
            Err(e) => {
                proof { lemma_rustc_args_fail(w, acc, plan@, i as int + 1, plan@.len() as int); }
                return Err(e);
            },
        }
        i = i + 1;
    }
    Ok(ct)
}

/// Reads its source inputs and emits the requested artifacts (and the cfg
/// text at any stdout capture); it spawns nothing.
pub struct FakeRustc;

impl<S: Snapshot> Tool<S> for FakeRustc {
    open spec fn reads(&self, world: &S, plan: Seq<(Seq<char>, Role)>) -> Seq<Access> {
        rustc_tool_reads(world, plan)
    }

    open spec fn outcome(&self, world: &S, plan: Seq<(Seq<char>, Role)>) -> Result<ToolFiles, Seq<char>> {
        match rustc_outcome(world, plan) {
            Ok(rows) => Ok((pairs_map(rows), Map::empty())),
            Err(e) => Err(e),
        }
    }

    fn run<'a>(&self, plan: &ExecPlan, world: &mut ObservedWorld<'a, S>) -> (r: Result<Tree, String>)
        ensures
            final(world).observed() == recorded(old(world).observed(), old(world).world(),
                rustc_tool_reads(old(world).world(), plan@)),
            match rustc_outcome(old(world).world(), plan@) {
                Ok(rows) => r matches Ok(t) && t.text_map() == pairs_map(rows)
                    && t.blob_map() == Map::<Seq<char>, Seq<u8>>::empty(),
                Err(e) => r matches Err(s) && s@ == e,
            },
    {
        let outputs = collect_paths(plan, PathKind::Outputs);
        let stdouts = collect_paths(plan, PathKind::Stdouts);
        if outputs.len() == 0 && stdouts.len() == 0 {
            return Err(owned("rustc: no output"));
        }
        let mut m: Vec<u8> = Vec::new();
        append_str(&mut m, "vix-fake-rustc-output");
        let ct = match rustc_all_args(world, &mut m, plan) {
            Ok(ct) => ct,
            Err(e) => return Err(e),
        };
        let digest = blake3_hash(m.as_slice());
        let hex = hex_encode(&digest);
        let mut tree = Tree::empty();
        let ghost rows = rustc_rows(plan@, ct@, hex@);
        let ghost ov = string_views(outputs@);
        let ghost sv = string_views(stdouts@);
        assert(tree.text_map() =~= pairs_map(rows.take(0)));
        let mut k: usize = 0;
        while k < outputs.len()
            invariant
                k <= outputs@.len(),
                ov == string_views(outputs@),
                ov == all_outputs(plan@),
                rows == rustc_rows(plan@, ct@, hex@),
                rows.len() == ov.len() + sv.len(),
                sv == all_stdouts(plan@),
                tree.wf(),
                tree.text_map() == pairs_map(rows.take(k as int)),
                tree.blob_map() == Map::<Seq<char>, Seq<u8>>::empty(),
            decreases outputs@.len() - k,
        {
            let kind = artifact_kind_exec(outputs[k].as_str(), ct.as_str());
            let mut contents = owned(kind);
            push_str(&mut contents, "(");
            push_str(&mut contents, hex.as_str());
            push_str(&mut contents, ")");
            tree.entries.insert(owned(outputs[k].as_str()), contents);
            proof {
                assert(rows[k as int] == (ov[k as int], artifact_kind(ov[k as int], ct@) + "("@ + hex@ + ")"@));
                assert(rows.take(k as int + 1).drop_last() == rows.take(k as int));
                assert(tree.text_map() =~= pairs_map(rows.take(k as int + 1)));
            }
            k = k + 1;
        }
        let target = target_exec(plan);
        let cfg = cfg_text_exec(target.as_str());
        let mut j: usize = 0;
        while j < stdouts.len()
            invariant
                j <= stdouts@.len(),
                sv == string_views(stdouts@),
                ov.len() == outputs@.len(),
                rows == rustc_rows(plan@, ct@, hex@),
                rows.len() == ov.len() + sv.len(),
                sv == all_stdouts(plan@),
                cfg@ == cfg_text(target_of(plan@)),
                tree.wf(),
                tree.text_map() == pairs_map(rows.take(ov.len() + j)),
                tree.blob_map() == Map::<Seq<char>, Seq<u8>>::empty(),
            decreases stdouts@.len() - j,
        {
            tree.entries.insert(owned(stdouts[j].as_str()), owned(cfg.as_str()));
            proof {
                let n = ov.len() + j;
                assert(rows[n as int] == (sv[j as int], cfg@));
                assert(rows.take(n + 1).drop_last() == rows.take(n as int));
                assert(tree.text_map() =~= pairs_map(rows.take(n + 1)));
            }
            j = j + 1;
        }
        assert(rows.take(rows.len() as int) == rows);
        Ok(tree)
    }
}

} // verus!
