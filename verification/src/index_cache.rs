//! A versioned, atomic snapshot of the already-built symbol index.
//!
//! The cache is keyed by the workspace, Bazel output tree, configuration and
//! HEAD. A hit avoids both the output-tree walk and SCIP protobuf decoding.
//! Shard freshness is checked separately after startup; HEAD alone cannot see
//! an external rebuild on the same commit.
//!
//! A generation is a directory with a manifest and a body. The body begins with
//! a header, and the manifest holds its size and checksum. A pointer names the
//! generation in use.
pub mod read;

use vstd::prelude::*;

use crate::config::{copy_text, Config};
use crate::shard_set::ShardMetadata;
use crate::text::{
    begins_with, chars_of, comes_before, copy_texts, decimal_text, finishes_with, same_text,
    slice_trim_space, string_of,
};

verus! {

/// The version of the format.
pub const VERSION: u32 = 2;

/// Where the checksum of nothing starts.
pub const FNV_OFFSET: u64 = 0xcbf29ce484222325;

/// What the checksum is multiplied by for each byte.
pub const FNV_PRIME: u64 = 0x100000001b3;

/// Whether two optional texts are the same.
fn same_optional(a: &Option<String>, b: &Option<String>) -> (same: bool)
    ensures
        same == (crate::config::text_of(*a) == crate::config::text_of(*b)),
{
    match (a, b) {
        (Some(a), Some(b)) => same_text(a, b),
        (None, None) => true,
        _ => false,
    }
}

/// Whether two lists of texts are the same.
fn same_texts(a: &Vec<String>, b: &Vec<String>) -> (same: bool)
    ensures
        same == (crate::text::texts(a@) == crate::text::texts(b@)),
{
    let ghost x = crate::text::texts(a@);
    let ghost y = crate::text::texts(b@);
    if a.len() != b.len() {
        assert(x.len() != y.len());
        return false;
    }
    let mut i: usize = 0;
    while i < a.len()
        invariant
            x == crate::text::texts(a@),
            y == crate::text::texts(b@),
            a@.len() == b@.len(),
            i <= a@.len(),
            forall|j: int| 0 <= j < i ==> x[j] == y[j],
        decreases a@.len() - i,
    {
        assert(x[i as int] == a@[i as int]@);
        assert(y[i as int] == b@[i as int]@);
        if !same_text(&a[i], &b[i]) {
            return false;
        }
        i += 1;
    }
    assert(x =~= y);
    true
}

/// What a snapshot belongs to.
#[derive(Debug)]
pub struct CacheKey {
    workspace: String,
    output_tree: String,
    head: Option<String>,
    output_base: Option<String>,
    bazel: Option<String>,
    targets: Vec<String>,
    scip_java: Option<String>,
}

/// The view of a [`CacheKey`].
#[verifier::ext_equal]
pub struct KeyView {
    pub workspace: Seq<char>,
    pub output_tree: Seq<char>,
    pub head: Option<Seq<char>>,
    pub output_base: Option<Seq<char>>,
    pub bazel: Option<Seq<char>>,
    pub targets: Seq<Seq<char>>,
    pub scip_java: Option<Seq<char>>,
}

impl View for CacheKey {
    type V = KeyView;

    closed spec fn view(&self) -> KeyView {
        KeyView {
            workspace: self.workspace@,
            output_tree: self.output_tree@,
            head: crate::config::text_of(self.head),
            output_base: crate::config::text_of(self.output_base),
            bazel: crate::config::text_of(self.bazel),
            targets: crate::text::texts(self.targets@),
            scip_java: crate::config::text_of(self.scip_java),
        }
    }
}

impl CacheKey {
    /// The key of a workspace and its output tree, both by their canonical
    /// paths, at a commit, under some settings.
    pub fn new(
        workspace: String,
        output_tree: String,
        head: Option<String>,
        config: &Config,
    ) -> (key: CacheKey)
        ensures
            key@ == (KeyView {
                workspace: workspace@,
                output_tree: output_tree@,
                head: crate::config::text_of(head),
                output_base: config@.output_base,
                bazel: config@.bazel,
                targets: config@.targets,
                scip_java: config@.scip_java,
            }),
    {
        CacheKey {
            workspace,
            output_tree,
            head,
            output_base: copy_text(&config.output_base),
            bazel: copy_text(&config.bazel),
            targets: copy_texts(&config.index.targets),
            scip_java: copy_text(&config.index.scip_java),
        }
    }

    /// The key with these parts, as they were stored.
    pub fn from_parts(
        workspace: String,
        output_tree: String,
        head: Option<String>,
        output_base: Option<String>,
        bazel: Option<String>,
        targets: Vec<String>,
        scip_java: Option<String>,
    ) -> (key: CacheKey)
        ensures
            key@ == (KeyView {
                workspace: workspace@,
                output_tree: output_tree@,
                head: crate::config::text_of(head),
                output_base: crate::config::text_of(output_base),
                bazel: crate::config::text_of(bazel),
                targets: crate::text::texts(targets@),
                scip_java: crate::config::text_of(scip_java),
            }),
    {
        CacheKey { workspace, output_tree, head, output_base, bazel, targets, scip_java }
    }

    /// The parts of the key, to be stored: workspace, output tree, commit,
    /// output base, executable, targets and indexer.
    pub fn into_parts(self) -> (parts: (
        String,
        String,
        Option<String>,
        Option<String>,
        Option<String>,
        Vec<String>,
        Option<String>,
    ))
        ensures
            self@ == (KeyView {
                workspace: parts.0@,
                output_tree: parts.1@,
                head: crate::config::text_of(parts.2),
                output_base: crate::config::text_of(parts.3),
                bazel: crate::config::text_of(parts.4),
                targets: crate::text::texts(parts.5@),
                scip_java: crate::config::text_of(parts.6),
            }),
    {
        (
            self.workspace,
            self.output_tree,
            self.head,
            self.output_base,
            self.bazel,
            self.targets,
            self.scip_java,
        )
    }

    /// Whether the key still describes the workspace: the commit is the same,
    /// and both paths lead where they led. A path is missing where it no longer
    /// leads anywhere.
    pub fn still_current(
        &self,
        head: &Option<String>,
        workspace: &Option<String>,
        output_tree: &Option<String>,
    ) -> (current: bool)
        ensures
            current == (self@.head == crate::config::text_of(*head) && crate::config::text_of(
                *workspace,
            ) == Some(self@.workspace) && crate::config::text_of(*output_tree) == Some(
                self@.output_tree,
            )),
    {
        let same_workspace = match workspace {
            Some(workspace) => same_text(workspace, &self.workspace),
            None => false,
        };
        let same_output = match output_tree {
            Some(output) => same_text(output, &self.output_tree),
            None => false,
        };
        same_optional(&self.head, head) && same_workspace && same_output
    }

    /// Whether two keys are the same.
    pub fn same(&self, other: &CacheKey) -> (same: bool)
        ensures
            same == (self@ == other@),
    {
        let same = same_text(&self.workspace, &other.workspace) && same_text(
            &self.output_tree,
            &other.output_tree,
        ) && same_optional(&self.head, &other.head) && same_optional(
            &self.output_base,
            &other.output_base,
        ) && same_optional(&self.bazel, &other.bazel) && same_texts(&self.targets, &other.targets)
            && same_optional(&self.scip_java, &other.scip_java);
        assert(same ==> self@ =~= other@);
        same
    }

    /// A copy of the key.
    pub fn copy(&self) -> (out: CacheKey)
        ensures
            out@ == self@,
    {
        CacheKey {
            workspace: self.workspace.clone(),
            output_tree: self.output_tree.clone(),
            head: copy_text(&self.head),
            output_base: copy_text(&self.output_base),
            bazel: copy_text(&self.bazel),
            targets: copy_texts(&self.targets),
            scip_java: copy_text(&self.scip_java),
        }
    }
}

/// The checksum of some bytes, taken on from `seed`: each byte is mixed in and
/// the result multiplied, as in 64-bit FNV-1a.
pub open spec fn checksum_from(seed: u64, bytes: Seq<u8>) -> u64
    decreases bytes.len(),
{
    if bytes.len() == 0 {
        seed
    } else {
        mixed(checksum_from(seed, bytes.drop_last()), bytes.last())
    }
}

/// A checksum with one more byte.
pub open spec fn mixed(checksum: u64, byte: u8) -> u64 {
    (((checksum ^ (byte as u64)) * FNV_PRIME) % 0x1_0000_0000_0000_0000) as u64
}

/// The checksum of some bytes.
pub open spec fn checksum(bytes: Seq<u8>) -> u64 {
    checksum_from(FNV_OFFSET, bytes)
}

/// Bytes that come in pieces have the checksum of the whole.
pub proof fn checksums_compose(seed: u64, a: Seq<u8>, b: Seq<u8>)
    ensures
        checksum_from(seed, a + b) == checksum_from(checksum_from(seed, a), b),
    decreases b.len(),
{
    if b.len() == 0 {
        assert(a + b =~= a);
    } else {
        assert((a + b).drop_last() =~= a + b.drop_last());
        checksums_compose(seed, a, b.drop_last());
    }
}

/// Takes a checksum on over some bytes.
pub fn update_checksum(checksum: &mut u64, bytes: &[u8])
    ensures
        *final(checksum) == checksum_from(*old(checksum), bytes@),
{
    let ghost seed = *checksum;
    let mut i: usize = 0;
    assert(bytes@.take(0) =~= Seq::<u8>::empty());
    while i < bytes.len()
        invariant
            i <= bytes@.len(),
            *checksum == checksum_from(seed, bytes@.take(i as int)),
        decreases bytes@.len() - i,
    {
        proof {
            assert(bytes@.take(i + 1).drop_last() =~= bytes@.take(i as int));
        }
        let mixed_in: u64 = *checksum ^ (bytes[i] as u64);
        *checksum = mixed_in.wrapping_mul(FNV_PRIME);
        i += 1;
    }
    assert(bytes@.take(i as int) =~= bytes@);
}

/// The checksum of bytes that are written or read in pieces.
#[derive(Copy, Clone, Debug)]
pub struct Digest {
    checksum: u64,
}

impl Digest {
    /// Whether this is the digest of some bytes.
    pub closed spec fn covers(&self, bytes: Seq<u8>) -> bool {
        self.checksum == checksum(bytes)
    }

    /// The digest of nothing.
    pub fn new() -> (digest: Digest)
        ensures
            digest.covers(Seq::empty()),
    {
        Digest { checksum: FNV_OFFSET }
    }

    /// Takes in a piece of bytes.
    pub fn update(&mut self, piece: &[u8])
        ensures
            forall|bytes: Seq<u8>| #[trigger]
                old(self).covers(bytes) ==> final(self).covers(bytes + piece@),
    {
        let ghost before = self.checksum;
        update_checksum(&mut self.checksum, piece);
        proof {
            assert forall|bytes: Seq<u8>| #[trigger] old(self).covers(bytes) implies self.covers(
                bytes + piece@,
            ) by {
                checksums_compose(FNV_OFFSET, bytes, piece@);
            }
        }
    }

    /// The checksum.
    pub fn checksum(&self) -> (value: u64)
        ensures
            forall|bytes: Seq<u8>| #[trigger] self.covers(bytes) ==> value == checksum(bytes),
    {
        self.checksum
    }
}

/// What a body begins with: `JABARIDX`, and the version, the least significant
/// byte first.
pub open spec fn header() -> Seq<u8> {
    seq![74u8, 65, 66, 65, 82, 73, 68, 88, 2, 0, 0, 0]
}

/// How long the header is.
pub const HEADER_LEN: usize = 12;

/// The header of a body.
pub fn write_header() -> (bytes: Vec<u8>)
    ensures
        bytes@ == header(),
{
    let bytes: Vec<u8> = vec![74, 65, 66, 65, 82, 73, 68, 88, 2, 0, 0, 0];
    assert(bytes@ =~= header());
    bytes
}

/// Whether these are the header of a body in the current format.
pub fn header_is_current(bytes: &[u8]) -> (current: bool)
    ensures
        current == (bytes@ == header()),
{
    let expected = write_header();
    if bytes.len() != expected.len() {
        return false;
    }
    let mut i: usize = 0;
    while i < bytes.len()
        invariant
            expected@ == header(),
            bytes@.len() == expected@.len(),
            i <= bytes@.len(),
            forall|j: int| 0 <= j < i ==> bytes@[j] == expected@[j],
        decreases bytes@.len() - i,
    {
        if bytes[i] != expected[i] {
            return false;
        }
        i += 1;
    }
    assert(bytes@ =~= header());
    true
}

/// What is stored beside a body.
#[derive(Debug)]
pub struct Manifest {
    pub version: u32,
    pub key: CacheKey,
    pub shards: Vec<ShardMetadata>,
    /// How long the body is.
    pub bytes: u64,
    pub checksum: u64,
}

impl Manifest {
    /// The manifest of a body in the current format.
    pub fn new(key: CacheKey, shards: Vec<ShardMetadata>, bytes: u64, checksum: u64) -> (manifest:
        Manifest)
        ensures
            manifest == (Manifest { version: VERSION, key, shards, bytes, checksum }),
    {
        Manifest { version: VERSION, key, shards, bytes, checksum }
    }
}

/// A stored body: a header and a snapshot.
pub open spec fn body(snapshot: Seq<u8>) -> Seq<u8> {
    header() + snapshot
}

/// The inverse of [`FNV_PRIME`] among the 64-bit numbers.
const FNV_INVERSE: u64 = 0xce965057aff6957b;

/// Mixing in a byte loses nothing of the checksum before it.
proof fn lemma_mixed_injective(a: u64, b: u64, x: u8, y: u8)
    requires
        mixed(a, x) == mixed(b, y),
    ensures
        (a ^ (x as u64)) == (b ^ (y as u64)),
{
    lemma_unmixed(a ^ (x as u64));
    lemma_unmixed(b ^ (y as u64));
}

/// A product with the prime, multiplied by its inverse, is what it was.
proof fn lemma_unmixed(a: u64)
    ensures
        (((a * FNV_PRIME) % 0x1_0000_0000_0000_0000) * FNV_INVERSE) % 0x1_0000_0000_0000_0000 == a,
{
    let m: int = 0x1_0000_0000_0000_0000;
    let p = FNV_PRIME as int;
    let q = FNV_INVERSE as int;
    vstd::arithmetic::div_mod::lemma_mul_mod_noop_left(a * p, q, m);
    assert((a * p) * q == a * (p * q)) by (nonlinear_arith);
    assert((p * q) % m == 1) by (nonlinear_arith)
        requires
            p == 0x100000001b3,
            q == 0xce965057aff6957b,
            m == 0x1_0000_0000_0000_0000,
    ;
    vstd::arithmetic::div_mod::lemma_mul_mod_noop_right(a as int, p * q, m);
    assert(a * 1 == a);
    assert((a as int) % m == a) by (nonlinear_arith)
        requires
            0 <= a < 0x1_0000_0000_0000_0000,
            m == 0x1_0000_0000_0000_0000,
    ;
}

/// Checksums that differ stay different over the same bytes.
proof fn lemma_seed_injective(a: u64, b: u64, bytes: Seq<u8>)
    requires
        a != b,
    ensures
        checksum_from(a, bytes) != checksum_from(b, bytes),
    decreases bytes.len(),
{
    if bytes.len() > 0 {
        let x = checksum_from(a, bytes.drop_last());
        let y = checksum_from(b, bytes.drop_last());
        let c = bytes.last();
        lemma_seed_injective(a, b, bytes.drop_last());
        if mixed(x, c) == mixed(y, c) {
            lemma_mixed_injective(x, y, c, c);
            let d = c as u64;
            assert(x == y) by (bit_vector)
                requires
                    (x ^ d) == (y ^ d),
            ;
        }
    }
}

/// A body with one byte changed never passes for the one that was written: the
/// checksums differ.
pub proof fn a_changed_byte_is_detected(bytes: Seq<u8>, at: int, changed: u8)
    requires
        0 <= at < bytes.len(),
        changed != bytes[at],
    ensures
        checksum(bytes.update(at, changed)) != checksum(bytes),
{
    let other = bytes.update(at, changed);
    let head = bytes.take(at);
    let tail = bytes.skip(at + 1);
    let before = checksum(head);
    assert(bytes =~= head.push(bytes[at]) + tail);
    assert(other =~= head.push(changed) + tail);
    checksums_compose(FNV_OFFSET, head.push(bytes[at]), tail);
    checksums_compose(FNV_OFFSET, head.push(changed), tail);
    assert(head.push(bytes[at]).drop_last() =~= head);
    assert(head.push(changed).drop_last() =~= head);
    let x = bytes[at];
    if mixed(before, x) == mixed(before, changed) {
        lemma_mixed_injective(before, before, x, changed);
        assert(x == changed) by (bit_vector)
            requires
                (before ^ (x as u64)) == (before ^ (changed as u64)),
        ;
    }
    lemma_seed_injective(mixed(before, x), mixed(before, changed), tail);
}

/// Whether a character may stand in the name of a generation.
pub open spec fn generation_char(c: char) -> bool {
    ('a' <= c && c <= 'z') || ('A' <= c && c <= 'Z') || ('0' <= c && c <= '9') || c == '-'
}

/// Whether a text names a generation. Nothing else is ever joined to the path of
/// the cache.
pub open spec fn names_generation(name: Seq<char>) -> bool {
    "g-"@.is_prefix_of(name) && forall|i: int|
        0 <= i < name.len() ==> generation_char(#[trigger] name[i])
}

/// The generation that the contents of a pointer name, if any.
pub fn pointed_generation(contents: &str) -> (name: Option<String>)
    ensures
        ({
            let text = crate::text::space_trimmed(contents@);
            match name {
                Some(name) => name@ == text && names_generation(text),
                None => !names_generation(text),
            }
        }),
{
    let chars = chars_of(contents);
    let name = slice_trim_space(chars.as_slice());
    let start = chars_of("g-");
    if !begins_with(name, start.as_slice()) {
        return None;
    }
    let mut i: usize = 0;
    while i < name.len()
        invariant
            i <= name@.len(),
            name@ == crate::text::space_trimmed(contents@),
            forall|j: int| 0 <= j < i ==> generation_char(#[trigger] name@[j]),
        decreases name@.len() - i,
    {
        let c = name[i];
        if !(('a' <= c && c <= 'z') || ('A' <= c && c <= 'Z') || ('0' <= c && c <= '9') || c
            == '-') {
            return None;
        }
        i += 1;
    }
    Some(string_of(name))
}

/// The name of a generation made at a time, by a process, as one of several.
pub open spec fn generation_text(nanos: nat, process: nat, number: nat) -> Seq<char> {
    "g-"@ + crate::text::decimal(nanos) + "-"@ + crate::text::decimal(process) + "-"@
        + crate::text::decimal(number)
}

/// Digits may stand in the name of a generation.
proof fn lemma_decimal_chars(n: nat)
    ensures
        forall|i: int|
            0 <= i < crate::text::decimal(n).len() ==> generation_char(
                #[trigger] crate::text::decimal(n)[i],
            ),
    decreases n,
{
    if n >= 10 {
        lemma_decimal_chars(n / 10);
        let rest = crate::text::decimal(n / 10);
        assert forall|i: int| 0 <= i < crate::text::decimal(n).len() implies generation_char(
            #[trigger] crate::text::decimal(n)[i],
        ) by {
            if i < rest.len() {
                assert(crate::text::decimal(n)[i] == rest[i]);
            }
        }
    }
}

/// The name of a generation, which is one that a pointer may hold.
pub fn generation_name(nanos: u128, process: u32, number: u64) -> (name: String)
    ensures
        name@ == generation_text(nanos as nat, process as nat, number as nat),
        names_generation(name@),
{
    let mut name = "g-".to_owned();
    let nanos_text = decimal_text(nanos);
    name.append(nanos_text.as_str());
    name.append("-");
    let process_text = decimal_text(process as u128);
    name.append(process_text.as_str());
    name.append("-");
    let number_text = decimal_text(number as u128);
    name.append(number_text.as_str());
    proof {
        reveal_strlit("g-");
        reveal_strlit("-");
        let a = crate::text::decimal(nanos as nat);
        let b = crate::text::decimal(process as nat);
        let c = crate::text::decimal(number as nat);
        lemma_decimal_chars(nanos as nat);
        lemma_decimal_chars(process as nat);
        lemma_decimal_chars(number as nat);
        assert(name@ =~= "g-"@ + a + "-"@ + b + "-"@ + c);
        assert(name@.take(2) =~= "g-"@);
        assert forall|i: int| 0 <= i < name@.len() implies generation_char(#[trigger] name@[i]) by {
            if 2 <= i < 2 + a.len() {
                assert(name@[i] == a[i - 2]);
            } else if 3 + a.len() <= i < 3 + a.len() + b.len() {
                assert(name@[i] == b[i - 3 - a.len()]);
            } else if i >= 4 + a.len() + b.len() {
                assert(name@[i] == c[i - 4 - a.len() - b.len()]);
            }
        }
    }
    name
}

/// Whether a directory of the cache is a published generation.
pub open spec fn published(name: Seq<char>) -> bool {
    "g-"@.is_prefix_of(name) && !"-tmp"@.is_suffix_of(name)
}

/// Whether a directory of the cache is pruned: it is an old generation, and a
/// later one is kept as a fallback.
pub open spec fn pruned(names: Seq<Seq<char>>, current: Seq<char>, name: Seq<char>) -> bool {
    published(name) && name != current && exists|i: int|
        0 <= i < names.len() && published(#[trigger] names[i]) && names[i] != current
            && crate::text::text_before(name, names[i])
}

/// The directories that are pruned, as they came.
pub open spec fn pruned_of(
    names: Seq<Seq<char>>,
    current: Seq<char>,
    among: Seq<Seq<char>>,
) -> Seq<Seq<char>>
    decreases among.len(),
{
    if among.len() == 0 {
        Seq::empty()
    } else if pruned(names, current, among.last()) {
        pruned_of(names, current, among.drop_last()).push(among.last())
    } else {
        pruned_of(names, current, among.drop_last())
    }
}

/// Decides [`published`].
fn is_published(name: &str) -> (yes: bool)
    ensures
        yes == published(name@),
{
    let chars = chars_of(name);
    let start = chars_of("g-");
    let end = chars_of("-tmp");
    begins_with(chars.as_slice(), start.as_slice()) && !finishes_with(
        chars.as_slice(),
        end.as_slice(),
    )
}

/// Chooses the directories of the cache to remove, given what the pointer holds:
/// all published generations but the one in use and the latest other one.
pub fn cleanup(names: &Vec<String>, current: &str) -> (removed: Vec<String>)
    ensures
        crate::text::texts(removed@) == pruned_of(
            crate::text::texts(names@),
            current@,
            crate::text::texts(names@),
        ),
{
    let ghost all = crate::text::texts(names@);
    let n: usize = names.len();
    let mut latest: Option<usize> = None;
    let mut i: usize = 0;
    while i < n
        invariant
            all == crate::text::texts(names@),
            n == names@.len(),
            i <= n,
            match latest {
                Some(k) => k < i && published(all[k as int]) && all[k as int] != current@,
                None => true,
            },
            forall|j: int|
                0 <= j < i && published(#[trigger] all[j]) && all[j] != current@ ==> (latest matches
                    Some(k) && !crate::text::text_before(all[k as int], all[j])),
        decreases n - i,
    {
        assert(all[i as int] == names@[i as int]@);
        if is_published(&names[i]) && !same_text(&names[i], current) {
            match latest {
                Some(k) => {
                    assert(all[k as int] == names@[k as int]@);
                    if comes_before(&names[k], &names[i]) {
                        proof {
                            assert forall|j: int|
                                0 <= j < i + 1 && published(#[trigger] all[j]) && all[j]
                                    != current@ implies !crate::text::text_before(
                                all[i as int],
                                all[j],
                            ) by {
                                crate::text::lemma_text_irreflexive(all[i as int]);
                                if j < i && crate::text::text_before(all[i as int], all[j]) {
                                    crate::text::lemma_text_transitive(
                                        all[k as int],
                                        all[i as int],
                                        all[j],
                                    );
                                }
                            }
                        }
                        latest = Some(i);
                    }
                },
                None => {
                    proof {
                        crate::text::lemma_text_irreflexive(all[i as int]);
                    }
                    latest = Some(i);
                },
            }
        }
        i += 1;
    }
    let mut removed: Vec<String> = Vec::new();
    let mut i: usize = 0;
    assert(all.take(0) =~= Seq::<Seq<char>>::empty());
    assert(crate::text::texts(removed@) =~= Seq::<Seq<char>>::empty());
    while i < n
        invariant
            all == crate::text::texts(names@),
            n == names@.len(),
            i <= n,
            match latest {
                Some(k) => k < n && published(all[k as int]) && all[k as int] != current@,
                None => true,
            },
            forall|j: int|
                0 <= j < n && published(#[trigger] all[j]) && all[j] != current@ ==> (latest matches
                    Some(k) && !crate::text::text_before(all[k as int], all[j])),
            crate::text::texts(removed@) == pruned_of(all, current@, all.take(i as int)),
        decreases n - i,
    {
        assert(all[i as int] == names@[i as int]@);
        assert(all.take(i + 1).drop_last() =~= all.take(i as int));
        let remove = match latest {
            Some(k) => {
                assert(all[k as int] == names@[k as int]@);
                is_published(&names[i]) && !same_text(&names[i], current) && comes_before(
                    &names[i],
                    &names[k],
                )
            },
            None => false,
        };
        proof {
            let name = all[i as int];
            if pruned(all, current@, name) {
                let j = choose|j: int|
                    0 <= j < all.len() && published(#[trigger] all[j]) && all[j] != current@
                        && crate::text::text_before(name, all[j]);
                let k = latest->0;
                if all[j] != all[k as int] {
                    crate::text::lemma_text_total(all[j], all[k as int]);
                    crate::text::lemma_text_transitive(name, all[j], all[k as int]);
                }
            }
            assert(remove == pruned(all, current@, name));
        }
        let ghost before = removed@;
        if remove {
            removed.push(names[i].clone());
            assert(crate::text::texts(removed@) =~= crate::text::texts(before).push(all[i as int]));
        }
        i += 1;
    }
    assert(all.take(i as int) =~= all);
    removed
}

/// Old generations are bounded: of those that stay, all but the one in use are
/// the same.
pub proof fn at_most_one_fallback_stays(
    names: Seq<Seq<char>>,
    current: Seq<char>,
    a: int,
    b: int,
)
    requires
        0 <= a < names.len(),
        0 <= b < names.len(),
        published(names[a]) && names[a] != current && !pruned(names, current, names[a]),
        published(names[b]) && names[b] != current && !pruned(names, current, names[b]),
    ensures
        names[a] == names[b],
{
    if names[a] != names[b] {
        crate::text::lemma_text_total(names[a], names[b]);
    }
}

/// The generation in use is never pruned.
pub proof fn current_generation_stays(names: Seq<Seq<char>>, current: Seq<char>)
    ensures
        !pruned(names, current, current),
{
}

/// How much is written between two looks at whether it is still wanted.
pub const CHECK_BYTES: usize = 1048576;

/// Paces a writer that serializes a large snapshot, so that it finds out in time
/// that the generation was superseded.
#[derive(Copy, Clone, Debug)]
pub struct WritePace {
    until_check: usize,
}

impl WritePace {
    /// How much may still be written before the next look.
    pub closed spec fn granted(&self) -> nat {
        self.until_check as nat
    }

    /// Whether no more is granted than between two looks.
    pub closed spec fn wf(&self) -> bool {
        self.until_check <= CHECK_BYTES
    }

    /// A pace that begins with a look.
    pub fn new() -> (pace: WritePace)
        ensures
            pace.wf(),
            pace.granted() == 0,
    {
        WritePace { until_check: 0 }
    }

    /// Whether it is time to look.
    pub fn is_due(&self) -> (due: bool)
        ensures
            due == (self.granted() == 0),
    {
        self.until_check == 0
    }

    /// Notes that the generation is still wanted.
    pub fn looked(&mut self)
        ensures
            final(self).wf(),
            final(self).granted() == CHECK_BYTES,
    {
        self.until_check = CHECK_BYTES;
    }

    /// How much of `len` bytes may be written at once.
    pub fn chunk(&self, len: usize) -> (n: usize)
        ensures
            n == (if len <= self.granted() {
                len as nat
            } else {
                self.granted()
            }),
    {
        if len <= self.until_check {
            len
        } else {
            self.until_check
        }
    }

    /// Notes how much was written.
    pub fn wrote(&mut self, n: usize)
        requires
            old(self).wf(),
        ensures
            final(self).wf(),
            final(self).granted() == (if n <= old(self).granted() {
                (old(self).granted() - n) as nat
            } else {
                0
            }),
    {
        self.until_check = if n <= self.until_check {
            self.until_check - n
        } else {
            0
        };
    }
}

/// How far a generation that is being stored has come.
#[derive(Copy, Clone, Debug, PartialEq, Eq, Structural)]
pub enum StoreStage {
    /// Nothing is written.
    Begun,
    /// The directory for the body is made, and the snapshot is being written.
    Serializing,
    /// The body is complete.
    Serialized,
    /// The manifest is complete, too, and the publication lock is held.
    Stamped,
    /// The directory has its final name, and the new pointer is written beside
    /// the old one.
    Placed,
    /// The pointer is put in place.
    Published,
}

/// What is seen before a stage is entered.
#[derive(Copy, Clone, Debug)]
pub struct StoreCheck {
    /// Whether no later generation is to be stored instead.
    pub wanted: bool,
    /// Whether the shards are still those of the index.
    pub shards_same: bool,
    /// Whether the key still describes the workspace.
    pub key_current: bool,
}

/// Why a generation was not stored.
#[derive(Copy, Clone, Debug, PartialEq, Eq, Structural)]
pub enum StoreError {
    SupersededBefore,
    SupersededWhile,
    Changed,
    SupersededPublishing,
}

/// What an error says.
pub open spec fn store_error_text(error: StoreError) -> Seq<char> {
    match error {
        StoreError::SupersededBefore => "cache generation was superseded before serialization"@,
        StoreError::SupersededWhile => "cache generation was superseded while serializing"@,
        StoreError::Changed => "shards or HEAD changed while caching"@,
        StoreError::SupersededPublishing => "cache generation superseded before publication"@,
    }
}

impl StoreError {
    /// Computes [`store_error_text`].
    pub fn describe(self) -> (text: &'static str)
        ensures
            text@ == store_error_text(self),
    {
        match self {
            StoreError::SupersededBefore => "cache generation was superseded before serialization",
            StoreError::SupersededWhile => "cache generation was superseded while serializing",
            StoreError::Changed => "shards or HEAD changed while caching",
            StoreError::SupersededPublishing => "cache generation superseded before publication",
        }
    }
}

/// The stage that follows one, by what is seen before it.
///
/// A build that rewrote shards while the snapshot was serialized must not
/// publish it as if it represented the completed output tree.
pub open spec fn next_stage(stage: StoreStage, seen: StoreCheck) -> Result<StoreStage, StoreError> {
    match stage {
        StoreStage::Begun => if seen.wanted {
            Ok(StoreStage::Serializing)
        } else {
            Err(StoreError::SupersededBefore)
        },
        StoreStage::Serializing => if seen.wanted {
            Ok(StoreStage::Serialized)
        } else {
            Err(StoreError::SupersededWhile)
        },
        StoreStage::Serialized => if seen.shards_same && seen.key_current && seen.wanted {
            Ok(StoreStage::Stamped)
        } else {
            Err(StoreError::Changed)
        },
        StoreStage::Stamped => if seen.wanted && seen.key_current {
            Ok(StoreStage::Placed)
        } else {
            Err(StoreError::SupersededPublishing)
        },
        StoreStage::Placed => if seen.wanted && seen.key_current {
            Ok(StoreStage::Published)
        } else {
            Err(StoreError::SupersededPublishing)
        },
        StoreStage::Published => Ok(StoreStage::Published),
    }
}

impl StoreStage {
    /// Goes on to the next stage, by what is seen before it.
    pub fn advance(self, seen: StoreCheck) -> (next: Result<StoreStage, StoreError>)
        ensures
            next == next_stage(self, seen),
    {
        match self {
            StoreStage::Begun => if seen.wanted {
                Ok(StoreStage::Serializing)
            } else {
                Err(StoreError::SupersededBefore)
            },
            StoreStage::Serializing => if seen.wanted {
                Ok(StoreStage::Serialized)
            } else {
                Err(StoreError::SupersededWhile)
            },
            StoreStage::Serialized => if seen.shards_same && seen.key_current && seen.wanted {
                Ok(StoreStage::Stamped)
            } else {
                Err(StoreError::Changed)
            },
            StoreStage::Stamped => if seen.wanted && seen.key_current {
                Ok(StoreStage::Placed)
            } else {
                Err(StoreError::SupersededPublishing)
            },
            StoreStage::Placed => if seen.wanted && seen.key_current {
                Ok(StoreStage::Published)
            } else {
                Err(StoreError::SupersededPublishing)
            },
            StoreStage::Published => Ok(StoreStage::Published),
        }
    }
}

/// How far a generation comes, by what is seen on the way.
pub open spec fn stored(seen: Seq<StoreCheck>) -> Result<StoreStage, StoreError>
    decreases seen.len(),
{
    if seen.len() == 0 {
        Ok(StoreStage::Begun)
    } else {
        match stored(seen.drop_last()) {
            Ok(stage) => next_stage(stage, seen.last()),
            Err(error) => Err(error),
        }
    }
}

/// A generation is published only where it was wanted all the way, its key held
/// from the scan on, and the shards were those of the index when they were
/// scanned.
pub proof fn only_current_generations_are_published(seen: Seq<StoreCheck>)
    requires
        seen.len() == 5,
    ensures
        stored(seen) == Ok::<StoreStage, StoreError>(StoreStage::Published) <==> (forall|i: int|
            0 <= i < 5 ==> (#[trigger] seen[i]).wanted) && seen[2].shards_same
            && seen[2].key_current && seen[3].key_current && seen[4].key_current,
{
    reveal_with_fuel(stored, 6);
    let a = seen.drop_last();
    let b = a.drop_last();
    let c = b.drop_last();
    let d = c.drop_last();
    let e = d.drop_last();
    assert(e.len() == 0);
    assert(d.last() == seen[0]);
    assert(c.last() == seen[1]);
    assert(b.last() == seen[2]);
    assert(a.last() == seen[3]);
}

/// What is pruned is exactly the old generations of the list but the latest of
/// them: whatever is no generation, or is still being written, stays.
pub proof fn old_generations_are_pruned(names: Seq<Seq<char>>, current: Seq<char>, name: Seq<char>)
    ensures
        pruned_of(names, current, names).contains(name) <==> names.contains(name)
            && "g-"@.is_prefix_of(name) && !"-tmp"@.is_suffix_of(name) && name != current
            && exists|i: int|
            0 <= i < names.len() && "g-"@.is_prefix_of(#[trigger] names[i])
                && !"-tmp"@.is_suffix_of(names[i]) && names[i] != current
                && crate::text::text_before(name, names[i]),
{
    lemma_pruned_of(names, current, names, name);
    if pruned(names, current, name) {
        let i = choose|i: int|
            0 <= i < names.len() && published(#[trigger] names[i]) && names[i] != current
                && crate::text::text_before(name, names[i]);
        assert("g-"@.is_prefix_of(names[i]));
    }
    if exists|i: int|
        0 <= i < names.len() && "g-"@.is_prefix_of(#[trigger] names[i]) && !"-tmp"@.is_suffix_of(
            names[i],
        ) && names[i] != current && crate::text::text_before(name, names[i]) {
        let i = choose|i: int|
            0 <= i < names.len() && "g-"@.is_prefix_of(#[trigger] names[i])
                && !"-tmp"@.is_suffix_of(names[i]) && names[i] != current
                && crate::text::text_before(name, names[i]);
        assert(published(names[i]));
    }
}

proof fn lemma_pruned_of(
    names: Seq<Seq<char>>,
    current: Seq<char>,
    among: Seq<Seq<char>>,
    name: Seq<char>,
)
    ensures
        pruned_of(names, current, among).contains(name) <==> among.contains(name) && pruned(
            names,
            current,
            name,
        ),
    decreases among.len(),
{
    if among.len() > 0 {
        let rest = among.drop_last();
        let last = among.last();
        lemma_pruned_of(names, current, rest, name);
        let before = pruned_of(names, current, rest);
        let all = pruned_of(names, current, among);
        assert(among.contains(name) <==> rest.contains(name) || name == last) by {
            assert(among[among.len() - 1] == last);
            if rest.contains(name) {
                let i = choose|i: int| 0 <= i < rest.len() && rest[i] == name;
                assert(among[i] == name);
            }
            if among.contains(name) && name != last {
                let i = choose|i: int| 0 <= i < among.len() && among[i] == name;
                assert(rest[i] == name);
            }
        }
        if pruned(names, current, last) {
            assert(all[before.len() as int] == last);
            if before.contains(name) {
                let i = choose|i: int| 0 <= i < before.len() && before[i] == name;
                assert(all[i] == name);
            }
            if all.contains(name) && name != last {
                let i = choose|i: int| 0 <= i < all.len() && all[i] == name;
                assert(before[i] == name);
            }
        }
    }
}

/// A generation is named by letters, digits and hyphens behind `g-`.
pub proof fn generations_are_named_by_plain_characters(name: Seq<char>, c: char)
    requires
        names_generation(name),
        name.contains(c),
    ensures
        "g-"@.is_prefix_of(name),
        c != '/' && c != '.' && c != '\\' && c != ' ' && c != '\n',
        c == '-' || ('0' <= c && c <= '9') || ('a' <= c && c <= 'z') || ('A' <= c && c <= 'Z'),
{
    let i = choose|i: int| 0 <= i < name.len() && name[i] == c;
    assert(generation_char(name[i]));
}

/// A body begins with the format's name and version, so that a body of another
/// format is told by its first bytes.
pub proof fn bodies_begin_with_their_format(snapshot: Seq<u8>)
    ensures
        body(snapshot).len() == 12 + snapshot.len(),
        body(snapshot).skip(12) == snapshot,
        forall|i: int|
            0 <= i < 8 ==> #[trigger] body(snapshot)[i] == "JABARIDX"@[i] as u8,
        body(snapshot)[8] == 2 && body(snapshot)[9] == 0 && body(snapshot)[10] == 0
            && body(snapshot)[11] == 0,
{
    reveal_strlit("JABARIDX");
    assert(body(snapshot).skip(12) =~= snapshot);
    assert forall|i: int| 0 <= i < 8 implies #[trigger] body(snapshot)[i]
        == "JABARIDX"@[i] as u8 by {
        assert(body(snapshot)[i] == header()[i]);
        assert(i == 0 || i == 1 || i == 2 || i == 3 || i == 4 || i == 5 || i == 6 || i == 7);
    }
}

} // verus!
