//! Which entries a scan for shards looks at, and how shards are ordered.
use vstd::prelude::*;

use crate::shard_set::{sorted_shards, ShardMetadata};


verus! {

/// A scan measures the files that end in `.scip`, walks the directories, and
/// leaves out those of intermediate results.
pub proof fn scans_find_shards(stem: Seq<char>, name: Seq<char>)
    ensures
        crate::shard_set::scan_step(stem + ".scip-targetroot"@, true) is Skip,
        crate::shard_set::scan_step(stem + ".semanticdb"@, true) is Skip,
        !".scip-targetroot"@.is_suffix_of(name) && !".semanticdb"@.is_suffix_of(name)
            ==> crate::shard_set::scan_step(name, true) is Descend,
        stem.len() > 0 ==> crate::shard_set::scan_step(stem + ".scip"@, false) is Measure,
        !".scip"@.is_suffix_of(name) ==> crate::shard_set::scan_step(name, false) is Skip,
        crate::shard_set::scan_step(".scip"@, false) is Skip,
{
    reveal_strlit(".scip-targetroot");
    reveal_strlit(".semanticdb");
    reveal_strlit(".scip");
    assert(".scip-targetroot"@ =~= crate::shard_set::targetroot_suffix());
    assert(".semanticdb"@ =~= crate::shard_set::semanticdb_suffix());
    assert(".scip"@ =~= crate::shard_set::shard_suffix());
    assert(".scip-targetroot"@.is_suffix_of(stem + ".scip-targetroot"@));
    assert(".semanticdb"@.is_suffix_of(stem + ".semanticdb"@));
    assert(".scip"@.is_suffix_of(stem + ".scip"@));
}

/// Paths are ordered part by part: the first difference decides, a separator
/// comes before anything else, and a path comes before all that it begins.
pub proof fn paths_are_ordered_by_parts(
    common: Seq<char>,
    x: char,
    y: char,
    a: Seq<char>,
    b: Seq<char>,
)
    requires
        x != y,
    ensures
        x == '/' ==> crate::shard_set::path_before(common + seq![x] + a, common + seq![y] + b),
        y == '/' ==> !crate::shard_set::path_before(common + seq![x] + a, common + seq![y] + b),
        x != '/' && y != '/' ==> (crate::shard_set::path_before(
            common + seq![x] + a,
            common + seq![y] + b,
        ) <==> x < y),
        crate::shard_set::path_before(common, common + seq![x] + a),
        !crate::shard_set::path_before(common + seq![x] + a, common),
    decreases common.len(),
{
    let p = common + seq![x] + a;
    let q = common + seq![y] + b;
    if common.len() == 0 {
        assert(p[0] == x);
        assert(q[0] == y);
    } else {
        let rest = common.drop_first();
        paths_are_ordered_by_parts(rest, x, y, a, b);
        assert(p[0] == common[0]);
        assert(q[0] == common[0]);
        assert(p.drop_first() =~= rest + seq![x] + a);
        assert(q.drop_first() =~= rest + seq![y] + b);
    }
}

/// The shards of a scan are all kept, each once, and no two are in the wrong
/// order.
pub proof fn scans_are_ordered_by_path(
    shards: &Vec<ShardMetadata>,
    sorted: Vec<ShardMetadata>,
    i: int,
    j: int,
    k: usize,
)
    requires
        call_ensures(sorted_shards, (shards,), sorted),
        0 <= i < j < sorted@.len(),
        k < shards@.len(),
    ensures
        sorted@[i]@.path == sorted@[j]@.path || crate::shard_set::path_before(
            sorted@[i]@.path,
            sorted@[j]@.path,
        ),
        exists|at: int| 0 <= at < sorted@.len() && (#[trigger] sorted@[at])@ == shards@[k as int]@,
{
    let all = crate::shard_set::identities(shards@);
    let rows = choose|rows: Seq<usize>| #[trigger]
        crate::shard_set::sorts_shards(all, rows) && sorted@.len() == rows.len() && forall|n: int|
            0 <= n < rows.len() ==> (#[trigger] sorted@[n])@ == shards@[rows[n] as int]@;
    assert(crate::shard_set::shard_before(all, rows[i], rows[j]));
    assert(rows.contains(rows[i]) && rows.contains(rows[j]));
    assert(all[rows[i] as int].path == sorted@[i]@.path);
    assert(all[rows[j] as int].path == sorted@[j]@.path);
    assert(rows.contains(k));
    let at = choose|at: int| 0 <= at < rows.len() && rows[at] == k;
    assert(sorted@[at]@ == shards@[k as int]@);
}

} // verus!
