//! Finding and loading the shards of a build.
//!
//! A build leaves one aggregated `*.scip` shard per target. Loading scans the
//! output tree, decodes every shard, and scans again: a generation that changed
//! meanwhile, or of which a shard failed, is refused as a whole, so a caller
//! with an older complete index can keep serving it.
use vstd::prelude::*;

use crate::order::{sorted_rows, Precedence, TotalOrder};
use crate::symbol_index::SymbolIndex;
use crate::text::{chars_of, finishes_with, same_text};

pub mod laws;

verus! {

/// The cheap filesystem identity of one aggregated shard. This detects shard
/// additions and normal rewrites without decoding them during reconciliation.
#[derive(Debug)]
pub struct ShardMetadata {
    /// The path of the shard below the scanned directory, its parts separated
    /// by `/`.
    pub path: String,
    pub len: u64,
    pub modified_ns: u64,
}

/// The view of a [`ShardMetadata`].
pub struct ShardIdentity {
    pub path: Seq<char>,
    pub len: u64,
    pub modified_ns: u64,
}

impl View for ShardMetadata {
    type V = ShardIdentity;

    open spec fn view(&self) -> ShardIdentity {
        ShardIdentity { path: self.path@, len: self.len, modified_ns: self.modified_ns }
    }
}

impl ShardMetadata {
    /// A copy of the identity.
    pub fn copy(&self) -> (out: ShardMetadata)
        ensures
            out@ == self@,
    {
        ShardMetadata { path: self.path.clone(), len: self.len, modified_ns: self.modified_ns }
    }
}

/// The views of a sequence of shards.
pub open spec fn identities(shards: Seq<ShardMetadata>) -> Seq<ShardIdentity> {
    Seq::new(shards.len(), |i: int| shards[i]@)
}

/// Whether two scans found the same shards.
pub fn same_shards(a: &Vec<ShardMetadata>, b: &Vec<ShardMetadata>) -> (same: bool)
    ensures
        same == (identities(a@) == identities(b@)),
{
    if a.len() != b.len() {
        assert(identities(a@).len() != identities(b@).len());
        return false;
    }
    let mut i: usize = 0;
    while i < a.len()
        invariant
            a@.len() == b@.len(),
            i <= a@.len(),
            forall|k: int| 0 <= k < i ==> #[trigger] a@[k]@ == b@[k]@,
        decreases a@.len() - i,
    {
        let same = same_text(&a[i].path, &b[i].path) && a[i].len == b[i].len && a[i].modified_ns
            == b[i].modified_ns;
        if !same {
            assert(identities(a@)[i as int] != identities(b@)[i as int]);
            return false;
        }
        i += 1;
    }
    assert(identities(a@) =~= identities(b@));
    true
}

/// What a scan does with one directory entry.
#[derive(Copy, Clone, Debug, PartialEq, Eq, Structural)]
pub enum ScanStep {
    /// A directory to walk.
    Descend,
    /// A shard to measure.
    Measure,
    /// Nothing to look at.
    Skip,
}

/// `.scip-targetroot`, the ending of a directory of per-source shards.
pub open spec fn targetroot_suffix() -> Seq<char> {
    seq!['.', 's', 'c', 'i', 'p', '-', 't', 'a', 'r', 'g', 'e', 't', 'r', 'o', 'o', 't']
}

/// `.semanticdb`, the ending of another directory of intermediate results.
pub open spec fn semanticdb_suffix() -> Seq<char> {
    seq!['.', 's', 'e', 'm', 'a', 'n', 't', 'i', 'c', 'd', 'b']
}

/// `.scip`, the ending of a shard.
pub open spec fn shard_suffix() -> Seq<char> {
    seq!['.', 's', 'c', 'i', 'p']
}

/// What a scan does with the entry `name`.
///
/// Intermediate directories contain per-source shards already contained in
/// their sibling target shard, so they are skipped. A name that is all ending
/// has no extension, so it is no shard.
pub open spec fn scan_step(name: Seq<char>, is_directory: bool) -> ScanStep {
    if is_directory {
        if targetroot_suffix().is_suffix_of(name) || semanticdb_suffix().is_suffix_of(name) {
            ScanStep::Skip
        } else {
            ScanStep::Descend
        }
    } else if shard_suffix().is_suffix_of(name) && name.len() > shard_suffix().len() {
        ScanStep::Measure
    } else {
        ScanStep::Skip
    }
}

/// Decides [`scan_step`].
pub fn step_into(name: &str, is_directory: bool) -> (step: ScanStep)
    ensures
        step == scan_step(name@, is_directory),
{
    let chars = chars_of(name);
    let targetroot = [
        '.',
        's',
        'c',
        'i',
        'p',
        '-',
        't',
        'a',
        'r',
        'g',
        'e',
        't',
        'r',
        'o',
        'o',
        't',
    ];
    let semanticdb = ['.', 's', 'e', 'm', 'a', 'n', 't', 'i', 'c', 'd', 'b'];
    let shard = ['.', 's', 'c', 'i', 'p'];
    proof {
        assert(targetroot@ =~= targetroot_suffix());
        assert(semanticdb@ =~= semanticdb_suffix());
        assert(shard@ =~= shard_suffix());
    }
    if is_directory {
        if finishes_with(chars.as_slice(), targetroot.as_slice()) || finishes_with(
            chars.as_slice(),
            semanticdb.as_slice(),
        ) {
            ScanStep::Skip
        } else {
            ScanStep::Descend
        }
    } else if finishes_with(chars.as_slice(), shard.as_slice()) && chars.len() > shard.len() {
        ScanStep::Measure
    } else {
        ScanStep::Skip
    }
}

/// Whether `c` comes before `d` in the order of paths: the separator comes
/// first, so that paths compare part by part.
pub open spec fn path_char_before(c: char, d: char) -> bool {
    if c == '/' {
        d != '/'
    } else {
        d != '/' && c < d
    }
}

/// Whether `a` comes before `b` in the order of paths.
pub open spec fn path_before(a: Seq<char>, b: Seq<char>) -> bool
    decreases a.len(),
{
    if b.len() == 0 {
        false
    } else if a.len() == 0 {
        true
    } else if a[0] != b[0] {
        path_char_before(a[0], b[0])
    } else {
        path_before(a.drop_first(), b.drop_first())
    }
}

proof fn lemma_path_irreflexive(a: Seq<char>)
    ensures
        !path_before(a, a),
    decreases a.len(),
{
    if a.len() > 0 {
        lemma_path_irreflexive(a.drop_first());
    }
}

proof fn lemma_path_transitive(a: Seq<char>, b: Seq<char>, c: Seq<char>)
    requires
        path_before(a, b),
        path_before(b, c),
    ensures
        path_before(a, c),
    decreases a.len(),
{
    if a.len() > 0 && a[0] == b[0] && b[0] == c[0] {
        lemma_path_transitive(a.drop_first(), b.drop_first(), c.drop_first());
    }
}

proof fn lemma_path_total(a: Seq<char>, b: Seq<char>)
    requires
        a != b,
    ensures
        path_before(a, b) || path_before(b, a),
    decreases a.len(),
{
    if a.len() == 0 {
        assert(b.len() > 0 || a =~= b);
    } else if b.len() > 0 && a[0] == b[0] {
        if a.drop_first() == b.drop_first() {
            assert(a =~= seq![a[0]] + a.drop_first());
            assert(b =~= seq![b[0]] + b.drop_first());
        }
        lemma_path_total(a.drop_first(), b.drop_first());
    }
}

/// Decides [`path_before`].
fn path_precedes(a: &str, b: &str) -> (first: bool)
    ensures
        first == path_before(a@, b@),
{
    let x = chars_of(a);
    let y = chars_of(b);
    let mut i: usize = 0;
    assert(x@.skip(0) =~= x@);
    assert(y@.skip(0) =~= y@);
    loop
        invariant
            x@ == a@,
            y@ == b@,
            i <= x@.len(),
            i <= y@.len(),
            path_before(a@, b@) == path_before(x@.skip(i as int), y@.skip(i as int)),
        decreases x@.len() - i,
    {
        if i == y.len() {
            return false;
        }
        if i == x.len() {
            return true;
        }
        let c = x[i];
        let d = y[i];
        if c != d {
            return c == '/' || (d != '/' && c < d);
        }
        assert(x@.skip(i as int).drop_first() =~= x@.skip(i + 1));
        assert(y@.skip(i as int).drop_first() =~= y@.skip(i + 1));
        i += 1;
    }
}

/// Whether the shard at `a` comes before that at `b`: by path, and those with
/// the same path as they came.
pub open spec fn shard_before(shards: Seq<ShardIdentity>, a: usize, b: usize) -> bool {
    let x = shards[a as int].path;
    let y = shards[b as int].path;
    if x != y {
        path_before(x, y)
    } else {
        a < b
    }
}

/// The order of the shards of a scan.
pub struct ShardOrder<'a> {
    shards: &'a Vec<ShardMetadata>,
}

impl<'a> TotalOrder for ShardOrder<'a> {
    closed spec fn before(&self, a: usize, b: usize) -> bool {
        shard_before(identities(self.shards@), a, b)
    }

    proof fn lemma_irreflexive(&self, a: usize) {
    }

    proof fn lemma_transitive(&self, a: usize, b: usize, c: usize) {
        let shards = identities(self.shards@);
        let x = shards[a as int].path;
        let y = shards[b as int].path;
        let z = shards[c as int].path;
        if x != y && y != z {
            lemma_path_transitive(x, y, z);
            lemma_path_irreflexive(x);
        }
    }

    proof fn lemma_total(&self, a: usize, b: usize) {
        let shards = identities(self.shards@);
        if shards[a as int].path != shards[b as int].path {
            lemma_path_total(shards[a as int].path, shards[b as int].path);
        }
    }
}

impl<'a> Precedence for ShardOrder<'a> {
    closed spec fn known(&self, a: usize) -> bool {
        a < self.shards@.len()
    }

    fn precedes(&self, a: usize, b: usize) -> (first: bool) {
        let x = &self.shards[a].path;
        let y = &self.shards[b].path;
        if same_text(x, y) {
            a < b
        } else {
            path_precedes(x, y)
        }
    }
}

/// Whether `rows` names every shard once, in the order of paths.
pub open spec fn sorts_shards(shards: Seq<ShardIdentity>, rows: Seq<usize>) -> bool {
    &&& forall|i: int, j: int|
        0 <= i < j < rows.len() ==> #[trigger] shard_before(shards, rows[i], rows[j])
    &&& forall|x: usize| #[trigger] rows.contains(x) <==> x < shards.len()
}

/// The shards of a scan, ordered by path.
pub fn sorted_shards(shards: &Vec<ShardMetadata>) -> (sorted: Vec<ShardMetadata>)
    ensures
        exists|rows: Seq<usize>| #[trigger]
            sorts_shards(identities(shards@), rows) && sorted@.len() == rows.len() && forall|k: int|
                0 <= k < rows.len() ==> (#[trigger] sorted@[k])@ == shards@[rows[k] as int]@,
{
    let n: usize = shards.len();
    let mut all: Vec<usize> = Vec::new();
    let mut i: usize = 0;
    while i < n
        invariant
            i <= n,
            all@.len() == i,
            forall|k: int| 0 <= k < i ==> #[trigger] all@[k] == k,
        decreases n - i,
    {
        all.push(i);
        i += 1;
    }
    let order = ShardOrder { shards };
    proof {
        assert forall|k: int| 0 <= k < all@.len() implies #[trigger] order.known(all@[k]) by {}
    }
    let rows = sorted_rows(&order, &all);
    proof {
        assert forall|i: int, j: int| 0 <= i < j < rows@.len() implies #[trigger] shard_before(
            identities(shards@),
            rows@[i],
            rows@[j],
        ) by {
            assert(order.before(rows@[i], rows@[j]));
        }
        assert forall|x: usize| #[trigger] rows@.contains(x) <==> x < n by {
            if x < n {
                assert(all@[x as int] == x);
            }
            if all@.contains(x) {
                let k = choose|k: int| 0 <= k < all@.len() && all@[k] == x;
                assert(all@[k] == k);
            }
        }
        assert(sorts_shards(identities(shards@), rows@));
    }
    let mut sorted: Vec<ShardMetadata> = Vec::new();
    let mut k: usize = 0;
    while k < rows.len()
        invariant
            k <= rows@.len(),
            n == shards@.len(),
            forall|x: usize| #[trigger] rows@.contains(x) <==> x < n,
            sorted@.len() == k,
            forall|j: int| 0 <= j < k ==> (#[trigger] sorted@[j])@ == shards@[rows@[j] as int]@,
        decreases rows@.len() - k,
    {
        assert(rows@.contains(rows@[k as int]));
        sorted.push(shards[rows[k]].copy());
        k += 1;
    }
    sorted
}

/// The result of loading a shard set.
///
/// A partial index can still be useful, but callers must not persist it or mark
/// it verified. `failed` names every shard that could not be read or decoded so
/// the caller can retain an older complete index and retry later.
pub struct ShardLoad {
    pub index: SymbolIndex,
    pub failed: Vec<String>,
}

impl ShardLoad {
    /// Nothing loaded yet.
    pub fn new() -> (load: Self)
        ensures
            load.index.wf(),
            load.index@ == crate::index_model::empty_index(),
            load.failed@.len() == 0,
    {
        ShardLoad { index: SymbolIndex::new(), failed: Vec::new() }
    }

    /// Adds the shard at `path`, given its bytes where it could be read.
    pub fn take(&mut self, path: &str, bytes: Option<&[u8]>)
        requires
            old(self).index.wf(),
            old(self).index@.shards < usize::MAX,
        ensures
            final(self).index.wf(),
            match bytes {
                None => {
                    &&& final(self).index@ == old(self).index@
                    &&& crate::text::texts(final(self).failed@) == crate::text::texts(
                        old(self).failed@,
                    ).push(path@)
                },
                Some(bytes) => match crate::shard::decoded_shard(bytes@) {
                    None => {
                        &&& final(self).index@ == old(self).index@
                        &&& crate::text::texts(final(self).failed@) == crate::text::texts(
                            old(self).failed@,
                        ).push(path@)
                    },
                    Some(documents) => {
                        let (after, ok) = crate::index_model::added_shard(
                            old(self).index@,
                            documents,
                        );
                        &&& final(self).index@ == after
                        &&& crate::text::texts(final(self).failed@) == (if ok {
                            crate::text::texts(old(self).failed@)
                        } else {
                            crate::text::texts(old(self).failed@).push(path@)
                        })
                    },
                },
            },
    {
        let loaded = match bytes {
            Some(bytes) => self.index.add_shard(bytes),
            None => false,
        };
        if !loaded {
            let ghost before = self.failed@;
            self.failed.push(path.to_owned());
            assert(crate::text::texts(self.failed@) =~= crate::text::texts(before).push(path@));
        }
    }

    /// Ends a load: a query index does not need what only construction uses.
    pub fn finish(&mut self)
        requires
            old(self).index.wf(),
        ensures
            final(self).index.wf(),
            final(self).index@ == old(self).index@,
            final(self).index.kept_sites() == Set::<crate::symbol_index::Site>::empty(),
            !final(self).index.numbers_sites(),
            final(self).failed == old(self).failed,
    {
        self.index.finish();
    }
}

/// Why a generation of shards was refused.
#[derive(Copy, Clone, Debug, PartialEq, Eq, Structural)]
pub enum GenerationError {
    /// So many shards could not be loaded.
    FailedShards(usize),
    /// The shards changed while they were being loaded.
    Changed,
}

/// One complete, internally consistent generation of SCIP shards.
pub struct ValidatedIndex {
    pub index: SymbolIndex,
    pub shards: Vec<ShardMetadata>,
}

impl ValidatedIndex {
    /// Accepts a load whose shards were found again as they had been before it.
    ///
    /// The second scan detects a build rewriting the output tree while shards
    /// are being decoded. Any failure rejects the whole generation so callers
    /// can retain the previous index.
    pub fn accept(
        load: ShardLoad,
        before: Vec<ShardMetadata>,
        after: &Vec<ShardMetadata>,
    ) -> (accepted: Result<ValidatedIndex, GenerationError>)
        requires
            load.index.wf(),
        ensures
            match accepted {
                Ok(valid) => {
                    &&& load.failed@.len() == 0
                    &&& identities(before@) == identities(after@)
                    &&& valid.index == load.index
                    &&& valid.shards == before
                },
                Err(GenerationError::FailedShards(n)) => n == load.failed@.len() && n > 0,
                Err(GenerationError::Changed) => load.failed@.len() == 0 && identities(before@)
                    != identities(after@),
            },
    {
        if load.failed.len() > 0 {
            return Err(GenerationError::FailedShards(load.failed.len()));
        }
        if !same_shards(&before, after) {
            return Err(GenerationError::Changed);
        }
        Ok(ValidatedIndex { index: load.index, shards: before })
    }
}

} // verus!
