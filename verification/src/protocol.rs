//! The wire types that a runner and its client exchange: content hashes and
//! their hex spelling, the exec request (program, plan, mounts), the read
//! set and tree events a run reports, and the run's completion.

use vstd::prelude::*;
use crate::bytes::{blake3_digest, blake3_hash, bytes_to_vec, str_bytes, utf8};
use crate::strmap::StrMap;
use crate::text::{chars_of, owned, push_char, string_from_utf8};

verus! {

// ---------------------------------------------------------------------------
// Hex spelling
// ---------------------------------------------------------------------------

/// The lowercase hex digit of `n < 16`.
pub open spec fn hex_digit(n: u8) -> char {
    if n < 10 {
        ((48 + n) as u8) as char
    } else {
        ((87 + n) as u8) as char
    }
}

/// The two lowercase hex digits of a byte.
pub open spec fn hex_pair(b: u8) -> Seq<char> {
    seq![hex_digit(b / 16), hex_digit(b % 16)]
}

/// The lowercase hex spelling of a byte string, two digits per byte.
pub open spec fn hex_of(bytes: Seq<u8>) -> Seq<char>
    decreases bytes.len(),
{
    if bytes.len() == 0 {
        seq![]
    } else {
        hex_of(bytes.drop_last()) + hex_pair(bytes.last())
    }
}

/// The value of one hex digit, either case.
pub open spec fn digit_value(c: char) -> Option<u8> {
    if '0' <= c <= '9' {
        Some((c as u32 - 48) as u8)
    } else if 'a' <= c <= 'f' {
        Some((c as u32 - 87) as u8)
    } else if 'A' <= c <= 'F' {
        Some((c as u32 - 55) as u8)
    } else {
        None
    }
}

/// The byte a two-character chunk spells in base 16: two digits, or a `+`
/// sign and one digit.
pub open spec fn chunk_value(a: char, b: char) -> Option<u8> {
    if a == '+' {
        digit_value(b)
    } else {
        match (digit_value(a), digit_value(b)) {
            (Some(x), Some(y)) => Some((16 * x + y) as u8),
            _ => None,
        }
    }
}

/// The bytes of the first `n` two-character chunks of `s`.
pub open spec fn chunks_value(s: Seq<char>, n: nat) -> Option<Seq<u8>>
    decreases n,
{
    if n == 0 {
        Some(seq![])
    } else {
        match (chunks_value(s, (n - 1) as nat), chunk_value(s[2 * n - 2], s[2 * n - 1])) {
            (Some(bytes), Some(v)) => Some(bytes.push(v)),
            _ => None,
        }
    }
}

/// The 32 bytes a 64-character hex spelling stands for.
pub open spec fn hex_bytes(s: Seq<char>) -> Option<Seq<u8>> {
    if s.len() == 64 {
        chunks_value(s, 32)
    } else {
        None
    }
}

/// A digit spelled by `hex_digit` reads back as itself.
proof fn lemma_hex_digit_value(n: u8)
    requires
        n < 16,
    ensures
        digit_value(hex_digit(n)) == Some(n),
{
}

/// `chunks_value` of a spelling reads back its bytes.
proof fn lemma_chunks_of_hex(bytes: Seq<u8>, k: nat)
    requires
        k <= bytes.len(),
    ensures
        hex_of(bytes).len() == 2 * bytes.len(),
        chunks_value(hex_of(bytes), k) == Some(bytes.take(k as int)),
    decreases bytes.len(), k,
{
    if bytes.len() > 0 {
        lemma_hex_len(bytes);
    }
    if k > 0 {
        lemma_chunks_of_hex(bytes, (k - 1) as nat);
        let h = hex_of(bytes);
        let b = bytes[k - 1];
        lemma_hex_of_index(bytes, k - 1);
        lemma_hex_digit_value(b / 16);
        lemma_hex_digit_value(b % 16);
        assert(hex_digit(b / 16) != '+');
        assert((16 * (b / 16) + b % 16) as u8 == b);
        assert(bytes.take(k as int) == bytes.take(k - 1).push(b));
    }
}

/// Two digits per byte.
proof fn lemma_hex_len(bytes: Seq<u8>)
    ensures
        hex_of(bytes).len() == 2 * bytes.len(),
    decreases bytes.len(),
{
    if bytes.len() > 0 {
        lemma_hex_len(bytes.drop_last());
    }
}

/// The digits of byte `i` sit at `2i` and `2i + 1`.
proof fn lemma_hex_of_index(bytes: Seq<u8>, i: int)
    requires
        0 <= i < bytes.len(),
    ensures
        hex_of(bytes).len() == 2 * bytes.len(),
        hex_of(bytes)[2 * i] == hex_digit(bytes[i] / 16),
        hex_of(bytes)[2 * i + 1] == hex_digit(bytes[i] % 16),
    decreases bytes.len(),
{
    lemma_hex_len(bytes);
    lemma_hex_len(bytes.drop_last());
    if i < bytes.len() - 1 {
        lemma_hex_of_index(bytes.drop_last(), i);
    }
}

/// Once a chunk fails, every longer prefix fails.
proof fn lemma_chunks_fail(s: Seq<char>, k: nat, m: nat)
    requires
        k <= m,
        chunks_value(s, k) is None,
    ensures
        chunks_value(s, m) is None,
    decreases m,
{
    if k < m {
        lemma_chunks_fail(s, k, (m - 1) as nat);
    }
}

/// The hex digit of `n < 16`.
fn hex_digit_exec(n: u8) -> (c: char)
    requires
        n < 16,
    ensures
        c == hex_digit(n),
{
    if n < 10 {
        (48 + n) as char
    } else {
        (87 + n) as char
    }
}

/// The value of one hex digit.
fn digit_value_exec(c: char) -> (r: Option<u8>)
    ensures
        r == digit_value(c),
{
    if '0' <= c && c <= '9' {
        Some((c as u32 - 48) as u8)
    } else if 'a' <= c && c <= 'f' {
        Some((c as u32 - 87) as u8)
    } else if 'A' <= c && c <= 'F' {
        Some((c as u32 - 55) as u8)
    } else {
        None
    }
}

/// The hex spelling of `bytes[from..to]`.
fn hex_string(bytes: &[u8], to: usize) -> (s: String)
    requires
        to <= bytes@.len(),
    ensures
        s@ == hex_of(bytes@.take(to as int)),
{
    let mut s = String::new();
    let mut i: usize = 0;
    while i < to
        invariant
            i <= to,
            to <= bytes@.len(),
            s@ == hex_of(bytes@.take(i as int)),
        decreases to - i,
    {
        let b = bytes[i];
        push_char(&mut s, hex_digit_exec(b / 16));
        push_char(&mut s, hex_digit_exec(b % 16));
        assert(bytes@.take(i as int + 1).drop_last() == bytes@.take(i as int));
        i = i + 1;
    }
    s
}

// ---------------------------------------------------------------------------
// Hashes
// ---------------------------------------------------------------------------

/// A BLAKE3 digest.
#[derive(Debug, Clone, Copy, PartialEq, Eq, PartialOrd, Ord, Hash)]
pub struct Blake3Hash(pub [u8; 32]);

impl Blake3Hash {
    /// The BLAKE3 digest of `bytes`.
    pub fn from_bytes(bytes: &[u8]) -> (h: Self)
        ensures
            h.0@ == blake3_digest(bytes@)@,
    {
        Blake3Hash(blake3_hash(bytes))
    }

    /// The 64-character lowercase hex spelling.
    pub fn to_hex(&self) -> (s: String)
        ensures
            s@ == hex_of(self.0@),
    {
        let s = hex_string(&self.0, 32);
        assert(self.0@.take(32) == self.0@);
        s
    }

    /// The hex spelling of the first 8 bytes (16 characters).
    pub fn short_hex(&self) -> (s: String)
        ensures
            s@ == hex_of(self.0@.take(8)),
    {
        hex_string(&self.0, 8)
    }

    /// The digest a 64-character hex spelling stands for; `None` for any
    /// other text.
    pub fn from_hex(value: &str) -> (r: Option<Self>)
        ensures
            match hex_bytes(value@) {
                Some(bytes) => r matches Some(h) && h.0@ == bytes,
                None => r is None,
            },
    {
        let cs = chars_of(value);
        if cs.len() != 64 {
            return None;
        }
        let mut bytes = [0u8; 32];
        let mut i: usize = 0;
        while i < 32
            invariant
                i <= 32,
                cs@ == value@,
                cs@.len() == 64,
                chunks_value(cs@, i as nat) == Some(bytes@.take(i as int)),
                bytes@.len() == 32,
            decreases 32 - i,
        {
            let a = cs[2 * i];
            let b = cs[2 * i + 1];
            let v = if a == '+' {
                match digit_value_exec(b) {
                    Some(v) => v,
                    None => {
                        proof { lemma_chunks_fail(cs@, i as nat + 1, 32); }
                        return None;
                    },
                }
            } else {
                match (digit_value_exec(a), digit_value_exec(b)) {
                    (Some(x), Some(y)) => {
                        assert(x < 16 && y < 16);
                        16 * x + y
                    },
                    _ => {
                        proof { lemma_chunks_fail(cs@, i as nat + 1, 32); }
                        return None;
                    },
                }
            };
            let ghost before = bytes@;
            bytes[i] = v;
            assert(bytes@.take(i as int + 1) == before.take(i as int).push(v));
            i = i + 1;
        }
        assert(bytes@.take(32) == bytes@);
        Some(Blake3Hash(bytes))
    }
}

/// A spelled digest reads back as itself.
pub proof fn law_hex_round_trip(h: Blake3Hash)
    ensures
        hex_bytes(hex_of(h.0@)) == Some(h.0@),
{
    lemma_chunks_of_hex(h.0@, 32);
    assert(h.0@.take(32) == h.0@);
}

/// The short spelling is the first 16 characters of the full one.
pub proof fn law_short_hex_is_prefix(h: Blake3Hash)
    ensures
        hex_of(h.0@.take(8)) == hex_of(h.0@).take(16),
{
    lemma_hex_prefix(h.0@, 8);
}

/// The spelling of a prefix is a prefix of the spelling.
proof fn lemma_hex_prefix(bytes: Seq<u8>, k: int)
    requires
        0 <= k <= bytes.len(),
    ensures
        hex_of(bytes.take(k)) == hex_of(bytes).take(2 * k),
    decreases bytes.len(),
{
    lemma_chunks_of_hex(bytes, 0);
    if k < bytes.len() {
        lemma_hex_prefix(bytes.drop_last(), k);
        assert(bytes.drop_last().take(k) == bytes.take(k));
        lemma_chunks_of_hex(bytes.drop_last(), 0);
        assert(hex_of(bytes) == hex_of(bytes.drop_last()) + hex_pair(bytes.last()));
        assert(hex_of(bytes).take(2 * k) == hex_of(bytes.drop_last()).take(2 * k));
    } else {
        assert(bytes.take(k) == bytes);
        assert(hex_of(bytes).take(2 * k) == hex_of(bytes));
    }
}

/// The digest of a file's contents.
#[derive(Debug, Clone, Copy, PartialEq, Eq, PartialOrd, Ord, Hash)]
pub struct ContentHash(pub Blake3Hash);

impl ContentHash {
    /// The 64-character lowercase hex spelling.
    pub fn to_hex(&self) -> (s: String)
        ensures
            s@ == hex_of(self.0.0@),
    {
        self.0.to_hex()
    }

    /// The hex spelling of the first 8 bytes.
    pub fn short_hex(&self) -> (s: String)
        ensures
            s@ == hex_of(self.0.0@.take(8)),
    {
        self.0.short_hex()
    }

    /// The digest a 64-character hex spelling stands for.
    pub fn from_hex(value: &str) -> (r: Option<Self>)
        ensures
            match hex_bytes(value@) {
                Some(bytes) => r matches Some(h) && h.0.0@ == bytes,
                None => r is None,
            },
    {
        match Blake3Hash::from_hex(value) {
            Some(h) => Some(ContentHash(h)),
            None => None,
        }
    }
}

/// The digest of a node of the content-addressed store.
#[derive(Debug, Clone, Copy, PartialEq, Eq, PartialOrd, Ord, Hash)]
pub struct NodeHash(pub Blake3Hash);

impl NodeHash {
    /// The 64-character lowercase hex spelling.
    pub fn to_hex(&self) -> (s: String)
        ensures
            s@ == hex_of(self.0.0@),
    {
        self.0.to_hex()
    }

    /// The hex spelling of the first 8 bytes.
    pub fn short_hex(&self) -> (s: String)
        ensures
            s@ == hex_of(self.0.0@.take(8)),
    {
        self.0.short_hex()
    }

    /// The digest a 64-character hex spelling stands for.
    pub fn from_hex(value: &str) -> (r: Option<Self>)
        ensures
            match hex_bytes(value@) {
                Some(bytes) => r matches Some(h) && h.0.0@ == bytes,
                None => r is None,
            },
    {
        match Blake3Hash::from_hex(value) {
            Some(h) => Some(NodeHash(h)),
            None => None,
        }
    }
}


// ---------------------------------------------------------------------------
// Names and values
// ---------------------------------------------------------------------------

/// The version of the runner protocol a peer speaks.
#[derive(Debug, Clone, Copy, PartialEq, Eq, PartialOrd, Ord, Hash)]
pub struct RunnerProtocolVersion(pub u32);

/// The version of the protocol this library speaks.
pub const RUNNER_PROTOCOL_VERSION_NUMBER: u32 = 23;

/// The version of the protocol this library speaks.
pub fn runner_protocol_version() -> (v: RunnerProtocolVersion)
    ensures
        v.0 == RUNNER_PROTOCOL_VERSION_NUMBER,
{
    RunnerProtocolVersion(RUNNER_PROTOCOL_VERSION_NUMBER)
}

/// A path inside an exec sandbox.
#[derive(Debug, Clone, PartialEq, Eq, PartialOrd, Ord, Hash)]
pub struct ExecPath(pub String);

impl From<String> for ExecPath {
    fn from(value: String) -> (r: Self) {
        ExecPath(value)
    }
}

impl vstd::std_specs::convert::FromSpecImpl<String> for ExecPath {
    open spec fn obeys_from_spec() -> bool {
        true
    }

    open spec fn from_spec(value: String) -> Self {
        ExecPath(value)
    }
}

impl ExecPath {
    /// The path's text.
    pub fn as_str(&self) -> (s: &str)
        ensures
            s@ == self.0@,
    {
        self.0.as_str()
    }
}

/// The program an exec request runs.
#[derive(Debug, Clone, PartialEq, Eq, PartialOrd, Ord, Hash)]
pub struct ExecProgram(pub String);

impl From<String> for ExecProgram {
    fn from(value: String) -> (r: Self) {
        ExecProgram(value)
    }
}

impl vstd::std_specs::convert::FromSpecImpl<String> for ExecProgram {
    open spec fn obeys_from_spec() -> bool {
        true
    }

    open spec fn from_spec(value: String) -> Self {
        ExecProgram(value)
    }
}

impl ExecProgram {
    /// The program's text.
    pub fn as_str(&self) -> (s: &str)
        ensures
            s@ == self.0@,
    {
        self.0.as_str()
    }
}

/// One argument's text.
#[derive(Debug, Clone, PartialEq, Eq, PartialOrd, Ord, Hash)]
pub struct ExecArgValue(pub String);

impl From<String> for ExecArgValue {
    fn from(value: String) -> (r: Self) {
        ExecArgValue(value)
    }
}

impl vstd::std_specs::convert::FromSpecImpl<String> for ExecArgValue {
    open spec fn obeys_from_spec() -> bool {
        true
    }

    open spec fn from_spec(value: String) -> Self {
        ExecArgValue(value)
    }
}

impl ExecArgValue {
    /// The argument's text.
    pub fn as_str(&self) -> (s: &str)
        ensures
            s@ == self.0@,
    {
        self.0.as_str()
    }
}

/// Text contents of a tree entry.
#[derive(Debug, Clone, PartialEq, Eq, PartialOrd, Ord, Hash)]
pub struct ExecText(pub String);

impl From<String> for ExecText {
    fn from(value: String) -> (r: Self) {
        ExecText(value)
    }
}

impl vstd::std_specs::convert::FromSpecImpl<String> for ExecText {
    open spec fn obeys_from_spec() -> bool {
        true
    }

    open spec fn from_spec(value: String) -> Self {
        ExecText(value)
    }
}

impl ExecText {
    /// The contents.
    pub fn as_str(&self) -> (s: &str)
        ensures
            s@ == self.0@,
    {
        self.0.as_str()
    }
}

/// A size in bytes.
#[derive(Debug, Clone, Copy, PartialEq, Eq, PartialOrd, Ord, Hash)]
pub struct ByteLen(pub u64);

/// A process exit code.
#[derive(Debug, Clone, Copy, PartialEq, Eq)]
pub struct ExecExitCode(pub i32);

/// A runner's diagnostic text.
#[derive(Debug, Clone, PartialEq, Eq)]
pub struct ExecDiagnostic(pub String);

/// An operating system name.
#[derive(Debug, Clone, PartialEq, Eq)]
pub struct PlatformName(pub String);

/// A processor architecture name.
#[derive(Debug, Clone, PartialEq, Eq)]
pub struct PlatformArch(pub String);

/// The platform a runner runs on.
#[derive(Debug, Clone, PartialEq, Eq)]
pub struct RunnerPlatform {
    pub os: PlatformName,
    pub arch: PlatformArch,
}

/// How a runner is reached.
#[derive(Debug, Clone, Copy, PartialEq, Eq)]
pub enum RunnerTransport {
    VoxWebsocket,
    VoxLocal,
    VoxTcp,
}

/// A sandbox a runner can apply.
#[derive(Debug, Clone, Copy, PartialEq, Eq)]
pub enum SandboxCapability {
    Seatbelt,
    Landlock,
}

/// A kind of toolchain a runner offers.
#[derive(Debug, Clone, Copy, PartialEq, Eq)]
pub enum ToolchainKind {
    Shell,
    CCompiler,
    Rustc,
    SandboxExec,
}

/// One toolchain a runner offers.
#[derive(Debug, Clone, PartialEq, Eq)]
pub struct ToolchainCapability {
    pub kind: ToolchainKind,
    pub executable: ExecPath,
    pub content_hash: Option<ContentHash>,
}

/// What a runner can do.
#[derive(Debug, Clone, PartialEq, Eq)]
pub struct RunnerCapabilities {
    pub protocol_version: RunnerProtocolVersion,
    pub platform: RunnerPlatform,
    pub transports: Vec<RunnerTransport>,
    pub sandboxes: Vec<SandboxCapability>,
    pub toolchains: Vec<ToolchainCapability>,
}

/// A request for a runner's capabilities.
#[derive(Debug, Clone, PartialEq, Eq)]
pub struct CapabilityProbeRequest {}

/// A runner's answer to a capability probe.
#[derive(Debug, Clone, PartialEq, Eq)]
pub struct CapabilityProbeResult {
    pub capabilities: RunnerCapabilities,
}

// ---------------------------------------------------------------------------
// Trees
// ---------------------------------------------------------------------------

/// A tree of files: text entries, and blobs for contents that are not UTF-8.
#[derive(Debug, Clone, PartialEq, Eq)]
pub struct ExecTree {
    pub entries: StrMap<ExecText>,
    pub blobs: StrMap<Vec<u8>>,
}

impl ExecTree {
    /// Path -> text contents.
    pub open spec fn text_map(self) -> Map<Seq<char>, Seq<char>> {
        self.entries@.map_values(|v: ExecText| v.0@)
    }

    /// Path -> blob contents.
    pub open spec fn blob_map(self) -> Map<Seq<char>, Seq<u8>> {
        self.blobs@.map_values(|v: Vec<u8>| v@)
    }

    /// The bytes at `path`: the text entry's UTF-8 bytes first, else the blob.
    pub open spec fn bytes_at(self, path: Seq<char>) -> Option<Seq<u8>> {
        if self.text_map().contains_key(path) {
            Some(utf8(self.text_map()[path]))
        } else if self.blob_map().contains_key(path) {
            Some(self.blob_map()[path])
        } else {
            None
        }
    }

    /// Stores `contents` at `path`: as text when it is UTF-8, else as a blob.
    /// The other map is left as it was.
    pub fn insert_bytes(&mut self, path: &str, contents: Vec<u8>)
        ensures
            vstd::utf8::valid_utf8(contents@) ==> {
                &&& final(self).text_map() == old(self).text_map().insert(path@, vstd::utf8::decode_utf8(contents@))
                &&& final(self).blob_map() == old(self).blob_map()
            },
            !vstd::utf8::valid_utf8(contents@) ==> {
                &&& final(self).blob_map() == old(self).blob_map().insert(path@, contents@)
                &&& final(self).text_map() == old(self).text_map()
            },
    {
        let p = owned(path);
        match string_from_utf8(contents) {
            Ok(text) => {
                self.entries.insert(p, ExecText(text));
                assert(self.text_map() =~= old(self).text_map().insert(path@, vstd::utf8::decode_utf8(contents@)));
            },
            Err(bytes) => {
                self.blobs.insert(p, bytes);
                assert(self.blob_map() =~= old(self).blob_map().insert(path@, contents@));
            },
        }
    }

    /// The bytes at `path`: the text entry first, else the blob.
    pub fn bytes(&self, path: &str) -> (r: Option<Vec<u8>>)
        ensures
            match r {
                Some(b) => self.bytes_at(path@) == Some(b@),
                None => self.bytes_at(path@).is_none(),
            },
    {
        if let Some(text) = self.entries.get_str(path) {
            return Some(str_bytes(text.0.as_str()));
        }
        match self.blobs.get_str(path) {
            Some(b) => Some(bytes_to_vec(b.as_slice())),
            None => None,
        }
    }
}

impl Default for ExecTree {
    /// The empty tree.
    fn default() -> (t: Self)
        ensures
            t.text_map() == Map::<Seq<char>, Seq<char>>::empty(),
            t.blob_map() == Map::<Seq<char>, Seq<u8>>::empty(),
    {
        let t = ExecTree { entries: StrMap::new(), blobs: StrMap::new() };
        assert(t.text_map() =~= Map::<Seq<char>, Seq<char>>::empty());
        assert(t.blob_map() =~= Map::<Seq<char>, Seq<u8>>::empty());
        t
    }
}

/// What an insert of UTF-8 bytes at a path gives back: the same bytes. What
/// an insert of other bytes gives back: the same bytes too.
pub proof fn law_exec_tree_round_trip(before: ExecTree, after: ExecTree, path: Seq<char>, contents: Seq<u8>)
    requires
        vstd::utf8::valid_utf8(contents) ==> {
            &&& after.text_map() == before.text_map().insert(path, vstd::utf8::decode_utf8(contents))
            &&& after.blob_map() == before.blob_map()
        },
        !vstd::utf8::valid_utf8(contents) ==> {
            &&& after.blob_map() == before.blob_map().insert(path, contents)
            &&& after.text_map() == before.text_map()
            &&& !before.text_map().contains_key(path)
        },
    ensures
        after.bytes_at(path) == Some(contents),
{
    if vstd::utf8::valid_utf8(contents) {
        vstd::utf8::decode_utf8_encode_utf8(contents);
    }
}

/// A tree mounted at a path.
#[derive(Debug, Clone, PartialEq, Eq)]
pub struct ExecMount {
    pub at: ExecPath,
    pub tree: ExecTree,
}

/// What an argument of a plan is to the runner.
#[derive(Debug, Clone, Copy, PartialEq, Eq)]
pub enum ExecRole {
    Executable,
    Input,
    InputFlag,
    Output,
    OutputFlag,
    OutputDir,
    Stdout,
    Env,
    SearchDir,
    SearchDirFlag,
    Flag,
}

/// One argument with its role.
#[derive(Debug, Clone, PartialEq, Eq)]
pub struct ExecArg {
    pub value: ExecArgValue,
    pub role: ExecRole,
}

/// The argument vector of a run.
#[derive(Debug, Clone, PartialEq, Eq)]
pub struct ExecPlan {
    pub argv: Vec<ExecArg>,
}

/// One run: the program, its plan, what is mounted, and the toolchain roots.
#[derive(Debug, Clone, PartialEq, Eq)]
pub struct ExecRequest {
    pub program: ExecProgram,
    pub plan: ExecPlan,
    pub mounts: Vec<ExecMount>,
    pub toolchain_roots: Vec<ExecPath>,
}

/// What a run saw when it read a path.
#[derive(Debug, Clone, PartialEq, Eq)]
pub enum ExecReadObservation {
    File { content_hash: ContentHash, blob_node: Option<NodeHash>, size: ByteLen },
    Directory { directory_node: NodeHash },
    LookupMiss { parent_path: ExecPath, directory_node: NodeHash },
}

/// The name of an observation prefix.
#[derive(Debug, Clone, PartialEq, Eq, PartialOrd, Ord, Hash)]
pub struct ExecPrefixId(pub String);

/// The roots a prefix of observations covers.
#[derive(Debug, Clone, PartialEq, Eq)]
pub struct ExecObservationScope {
    pub prefix_id: ExecPrefixId,
    pub roots: Vec<ExecPath>,
}

/// The reads a run made, by path.
#[derive(Debug, Clone, PartialEq, Eq)]
pub struct ExecReadSet {
    pub entries: StrMap<ExecReadObservation>,
}

impl Default for ExecReadSet {
    /// The empty read set.
    fn default() -> (r: Self)
        ensures
            r.entries@ == Map::<Seq<char>, ExecReadObservation>::empty(),
    {
        ExecReadSet { entries: StrMap::new() }
    }
}

/// One output file that a run completed.
#[derive(Debug, Clone, PartialEq, Eq)]
pub struct ExecSubfileCompletion {
    pub path: ExecPath,
    pub content_hash: ContentHash,
    pub size: ByteLen,
}

/// The files of a finished output tree.
#[derive(Debug, Clone, PartialEq, Eq)]
pub struct ExecTreeFinalization {
    pub files: Vec<ExecSubfileCompletion>,
}

/// An event of a run's output tree.
#[derive(Debug, Clone, PartialEq, Eq)]
pub enum ExecTreeEvent {
    SubfileCompleted(ExecSubfileCompletion),
    TreeFinalized(ExecTreeFinalization),
}

/// A signal from the client to a running exec.
#[derive(Debug, Clone, PartialEq, Eq)]
pub enum ExecControlSignal {
    DemandsSatisfied(ExecDemandsSatisfied),
}

/// The paths whose demands the client satisfied.
#[derive(Debug, Clone, PartialEq, Eq)]
pub struct ExecDemandsSatisfied {
    pub completed: Vec<ExecPath>,
}

/// What a successful run produced and observed.
#[derive(Debug, Clone, PartialEq, Eq)]
pub struct ExecOutcome {
    pub outputs: ExecTree,
    pub read_set: ExecReadSet,
    pub observation_scopes: Vec<ExecObservationScope>,
    pub tree_events: Vec<ExecTreeEvent>,
}

/// Why a run failed.
#[derive(Debug, Clone, PartialEq, Eq)]
pub enum ExecErrorKind {
    Staging,
    Spawn,
    UnsupportedPlatform,
    ProcessExit,
    Harvest,
    Verification,
    Protocol,
}

/// A failed run: the kind and the runner's diagnostic.
#[derive(Debug, Clone, PartialEq, Eq)]
pub struct ExecError {
    pub kind: ExecErrorKind,
    pub diagnostic: ExecDiagnostic,
}

/// How a run ended.
#[derive(Debug, Clone, PartialEq, Eq)]
pub enum ExecCompletion {
    Succeeded(ExecOutcome),
    Failed(ExecError),
}

/// A run's result: its exit code, its captured streams, and its completion.
#[derive(Debug, Clone, PartialEq, Eq)]
pub struct ExecResult {
    pub exit_code: ExecExitCode,
    pub stdout: Vec<u8>,
    pub stderr: Vec<u8>,
    pub completion: ExecCompletion,
}

} // verus!
