use vstd::prelude::*;

use crate::config::HashConfig;
use crate::hashing::hashed_from;
use crate::index::{index_entries, key_view, GroupKey, KeyBytes, KeyIndex};

verus! {

/// One successfully hashed file: its path, its pixel dimensions, the
/// configuration of the hasher, and the hash bytes.
pub struct HashedImage {
    pub path: String,
    pub width: u32,
    pub height: u32,
    pub config: HashConfig,
    pub hash: Vec<u8>,
}

impl HashedImage {
    /// The grouping key: configuration, hash and dimensions.
    pub open spec fn key(&self) -> GroupKey {
        (self.config.resolution, self.config.use_dct, self.hash@, self.width, self.height)
    }
}

/// The paths whose images share one hash, one configuration and one pair
/// of dimensions, in the order the images came.
pub struct CollisionGroup {
    pub config: HashConfig,
    pub hash: Vec<u8>,
    pub width: u32,
    pub height: u32,
    pub paths: Vec<String>,
}

impl CollisionGroup {
    pub open spec fn key(&self) -> GroupKey {
        (self.config.resolution, self.config.use_dct, self.hash@, self.width, self.height)
    }
}

/// The distinct keys of `items`, in the order of their first occurrence.
pub open spec fn first_keys(items: Seq<HashedImage>) -> Seq<GroupKey>
    decreases items.len(),
{
    if items.len() == 0 {
        Seq::empty()
    } else {
        let prev = first_keys(items.drop_last());
        if prev.contains(items.last().key()) {
            prev
        } else {
            prev.push(items.last().key())
        }
    }
}

/// The paths of the items with key `k`, in order.
pub open spec fn paths_with_key(items: Seq<HashedImage>, k: GroupKey) -> Seq<String>
    decreases items.len(),
{
    if items.len() == 0 {
        Seq::empty()
    } else {
        let prev = paths_with_key(items.drop_last(), k);
        if items.last().key() == k {
            prev.push(items.last().path)
        } else {
            prev
        }
    }
}

/// `groups` holds one group per key of `items`, in order of first
/// occurrence, each with the paths of exactly the items of its key.
pub open spec fn grouped(items: Seq<HashedImage>, groups: Seq<CollisionGroup>) -> bool {
    &&& groups.len() == first_keys(items).len()
    &&& forall|g: int|
        0 <= g < groups.len() ==> {
            &&& #[trigger] groups[g].key() == first_keys(items)[g]
            &&& groups[g].paths@ == paths_with_key(items, groups[g].key())
        }
}

/// A group is reported when at least two images share its key.
pub open spec fn reportable(items: Seq<HashedImage>, k: GroupKey) -> bool {
    paths_with_key(items, k).len() >= 2
}

/// `reportable` as a predicate on keys.
pub open spec fn reportable_in(items: Seq<HashedImage>) -> spec_fn(GroupKey) -> bool {
    |k: GroupKey| reportable(items, k)
}

/// The keys of the reported groups, in order of first occurrence.
pub open spec fn collision_keys(items: Seq<HashedImage>) -> Seq<GroupKey> {
    first_keys(items).filter(reportable_in(items))
}

/// `groups` holds the reported groups of `items`, in order of first
/// occurrence, each with the paths of exactly the items of its key.
pub open spec fn collisions_of(items: Seq<HashedImage>, groups: Seq<CollisionGroup>) -> bool {
    &&& groups.len() == collision_keys(items).len()
    &&& forall|g: int|
        0 <= g < groups.len() ==> {
            &&& #[trigger] groups[g].key() == collision_keys(items)[g]
            &&& groups[g].paths@ == paths_with_key(items, groups[g].key())
        }
}

/// `index` maps each of `keys` to its position, and nothing else.
spec fn indexes(index: Map<GroupKey, usize>, keys: Seq<GroupKey>) -> bool {
    &&& forall|j: int|
        0 <= j < keys.len() ==> #[trigger] index.contains_key(keys[j]) && index[keys[j]] == j
    &&& forall|k: GroupKey| #[trigger] index.contains_key(k) ==> keys.contains(k)
}

fn copy_bytes(v: &Vec<u8>) -> (r: Vec<u8>)
    ensures
        r@ == v@,
{
    let r = v.clone();
    assert(r@ =~= v@);
    r
}

/// Groups hashed images by configuration, hash and dimensions. Groups come
/// in the order in which their first image came; within a group, paths keep
/// the order of `items`.
pub fn group_images(items: &Vec<HashedImage>) -> (groups: Vec<CollisionGroup>)
    ensures
        grouped(items@, groups@),
{
    let mut groups: Vec<CollisionGroup> = Vec::new();
    let mut index = KeyIndex::new();
    let mut i: usize = 0;
    while i < items.len()
        invariant
            i <= items.len(),
            grouped(items@.subrange(0, i as int), groups@),
            indexes(index_entries(index), first_keys(items@.subrange(0, i as int))),
        decreases items.len() - i,
    {
        let item = &items[i];
        let ghost prefix = items@.subrange(0, i as int);
        let ghost next = items@.subrange(0, i + 1);
        let ghost keys = first_keys(prefix);
        assert(next.drop_last() =~= prefix);
        assert(next.last() == *item);
        let key: KeyBytes = (
            item.config.resolution,
            item.config.use_dct,
            copy_bytes(&item.hash),
            item.width,
            item.height,
        );
        assert(key_view(key) == item.key());
        match index.lookup(&key) {
            Some(j) => {
                assert(keys.contains(item.key()));
                let ghost jj = choose|jj: int| 0 <= jj < keys.len() && keys[jj] == item.key();
                assert(index_entries(index).contains_key(keys[jj]));
                assert(j == jj);
                assert(first_keys(next) == keys);
                let ghost old_groups = groups@;
                groups[j].paths.push(item.path.clone());
                assert forall|g: int| 0 <= g < groups.len() implies {
                    &&& #[trigger] groups@[g].key() == first_keys(next)[g]
                    &&& groups@[g].paths@ == paths_with_key(next, groups@[g].key())
                } by {
                    if g != j {
                        assert(index_entries(index).contains_key(keys[g]));
                        assert(old_groups[g] == groups@[g]);
                    } else {
                        assert(groups@[g].key() == old_groups[g].key());
                        assert(groups@[g].paths@ == old_groups[g].paths@.push(item.path));
                        assert(paths_with_key(next, keys[g]) == paths_with_key(
                            prefix,
                            keys[g],
                        ).push(item.path));
                    }
                }
            },
            None => {
                assert(!keys.contains(item.key()));
                let n = groups.len();
                let ghost old_groups = groups@;
                groups.push(
                    CollisionGroup {
                        config: item.config,
                        hash: copy_bytes(&item.hash),
                        width: item.width,
                        height: item.height,
                        paths: vec![item.path.clone()],
                    },
                );
                index.insert(key, n);
                assert(first_keys(next) == keys.push(item.key()));
                assert(paths_with_key(prefix, item.key()) =~= Seq::empty()) by {
                    lemma_absent_key_no_paths(prefix, item.key());
                }
                assert forall|g: int| 0 <= g < groups.len() implies {
                    &&& #[trigger] groups@[g].key() == first_keys(next)[g]
                    &&& groups@[g].paths@ == paths_with_key(next, groups@[g].key())
                } by {
                    if g < n {
                        assert(old_groups[g] == groups@[g]);
                        assert(keys[g] != item.key());
                    } else {
                        assert(groups@[g].paths@ =~= seq![item.path]);
                    }
                }
                assert forall|k: GroupKey| #[trigger]
                    index_entries(index).contains_key(k) implies first_keys(next).contains(k) by {
                    if k != item.key() {
                        let jj = choose|jj: int| 0 <= jj < keys.len() && keys[jj] == k;
                        assert(first_keys(next)[jj] == k);
                    } else {
                        assert(first_keys(next)[n as int] == k);
                    }
                }
            },
        }
        i += 1;
    }
    assert(items@.subrange(0, items.len() as int) =~= items@);
    groups
}

/// The collision groups of `items`: the groups of `group_images` that hold
/// at least two paths, in the same order.
pub fn find_collisions(items: &Vec<HashedImage>) -> (r: Vec<CollisionGroup>)
    ensures
        collisions_of(items@, r@),
{
    let groups = group_images(items);
    let ghost all = groups@;
    let ghost keys = first_keys(items@);
    let mut r: Vec<CollisionGroup> = Vec::new();
    for g in it: groups.into_iter()
        invariant
            it.seq() == all,
            grouped(items@, all),
            keys == first_keys(items@),
            r@.len() == keys.subrange(0, it.index() as int).filter(reportable_in(items@)).len(),
            forall|x: int|
                0 <= x < r@.len() ==> {
                    &&& #[trigger] r@[x].key() == keys.subrange(0, it.index() as int).filter(
                        reportable_in(items@),
                    )[x]
                    &&& r@[x].paths@ == paths_with_key(items@, r@[x].key())
                },
    {
        let ghost i = it.index() as int;
        assert(g == all[i]);
        let ghost pred = reportable_in(items@);
        assert(i < keys.len());
        assert(all[i].key() == keys[i]);
        assert(keys.subrange(0, i + 1).last() == keys[i]);
        assert(pred(keys[i]) == (g.paths@.len() >= 2));
        let ghost before = keys.subrange(0, i);
        assert(keys.subrange(0, i + 1) =~= before.push(keys[i]));
        proof {
            before.lemma_filter_push(keys[i], pred);
        }
        if g.paths.len() >= 2 {
            r.push(g);
        }
    }
    assert(keys.subrange(0, keys.len() as int) =~= keys);
    r
}

/// A key that never occurs in `items` has no paths.
proof fn lemma_absent_key_no_paths(items: Seq<HashedImage>, k: GroupKey)
    requires
        !first_keys(items).contains(k),
    ensures
        paths_with_key(items, k).len() == 0,
    decreases items.len(),
{
    if items.len() > 0 {
        let prev = first_keys(items.drop_last());
        if prev.contains(items.last().key()) {
            let j = choose|j: int| 0 <= j < prev.len() && prev[j] == items.last().key();
            lemma_first_keys_grow(items);
            assert(first_keys(items)[j] == items.last().key());
        } else {
            assert(first_keys(items).last() == items.last().key());
        }
        if prev.contains(k) {
            let j = choose|j: int| 0 <= j < prev.len() && prev[j] == k;
            lemma_first_keys_grow(items);
            assert(first_keys(items)[j] == k);
        }
        lemma_absent_key_no_paths(items.drop_last(), k);
    }
}

/// Dropping the last item keeps the earlier keys as a prefix.
proof fn lemma_first_keys_grow(items: Seq<HashedImage>)
    requires
        items.len() > 0,
    ensures
        first_keys(items.drop_last()).len() <= first_keys(items).len(),
        forall|j: int|
            0 <= j < first_keys(items.drop_last()).len() ==> #[trigger] first_keys(items)[j]
                == first_keys(items.drop_last())[j],
{
}

/// Every item's key is among the keys of first occurrence.
proof fn lemma_key_seen(items: Seq<HashedImage>, i: int)
    requires
        0 <= i < items.len(),
    ensures
        first_keys(items).contains(items[i].key()),
    decreases items.len(),
{
    let last = items.len() - 1;
    lemma_first_keys_grow(items);
    if i < last {
        lemma_key_seen(items.drop_last(), i);
        let prev = first_keys(items.drop_last());
        let j = choose|j: int| 0 <= j < prev.len() && prev[j] == items[i].key();
        assert(first_keys(items)[j] == items[i].key());
    } else {
        let prev = first_keys(items.drop_last());
        if prev.contains(items.last().key()) {
            let j = choose|j: int| 0 <= j < prev.len() && prev[j] == items.last().key();
            assert(first_keys(items)[j] == items.last().key());
        } else {
            assert(first_keys(items).last() == items.last().key());
        }
    }
}

/// An item's path is among the paths of its key.
proof fn lemma_path_listed(items: Seq<HashedImage>, i: int)
    requires
        0 <= i < items.len(),
    ensures
        paths_with_key(items, items[i].key()).contains(items[i].path),
    decreases items.len(),
{
    let k = items[i].key();
    if i < items.len() - 1 {
        lemma_path_listed(items.drop_last(), i);
        let prev = paths_with_key(items.drop_last(), k);
        let x = choose|x: int| 0 <= x < prev.len() && prev[x] == items[i].path;
        assert(paths_with_key(items, k)[x] == items[i].path);
    } else {
        assert(paths_with_key(items, k).last() == items[i].path);
    }
}

/// Two distinct items of one key give that key at least two paths.
proof fn lemma_two_paths(items: Seq<HashedImage>, i: int, j: int)
    requires
        0 <= i < items.len(),
        0 <= j < items.len(),
        i != j,
        items[i].key() == items[j].key(),
    ensures
        paths_with_key(items, items[i].key()).len() >= 2,
    decreases items.len(),
{
    let last = items.len() - 1;
    let k = items[i].key();
    if i == last {
        lemma_path_listed(items.drop_last(), j);
    } else if j == last {
        lemma_path_listed(items.drop_last(), i);
    } else {
        lemma_two_paths(items.drop_last(), i, j);
    }
}

/// A key has no more paths than there are items.
proof fn lemma_paths_bounded(items: Seq<HashedImage>, k: GroupKey)
    ensures
        paths_with_key(items, k).len() <= items.len(),
    decreases items.len(),
{
    if items.len() > 0 {
        lemma_paths_bounded(items.drop_last(), k);
    }
}

/// Each path listed under a key is the path of an item with that key.
proof fn lemma_path_source(items: Seq<HashedImage>, k: GroupKey, x: int)
    requires
        0 <= x < paths_with_key(items, k).len(),
    ensures
        exists|i: int|
            0 <= i < items.len() && #[trigger] items[i].key() == k && items[i].path
                == paths_with_key(items, k)[x],
    decreases items.len(),
{
    let prev = paths_with_key(items.drop_last(), k);
    if x < prev.len() {
        lemma_path_source(items.drop_last(), k, x);
        let i = choose|i: int|
            0 <= i < items.drop_last().len() && #[trigger] items.drop_last()[i].key() == k
                && items.drop_last()[i].path == prev[x];
        assert(items[i] == items.drop_last()[i]);
    } else {
        assert(items[items.len() - 1].key() == k);
    }
}

/// Two files with identical bytes, hashed under one configuration, end up
/// together in one reported collision group.
pub proof fn lemma_identical_files_collide(
    items: Seq<HashedImage>,
    groups: Seq<CollisionGroup>,
    i: int,
    j: int,
    config: HashConfig,
    bytes: Seq<u8>,
)
    requires
        collisions_of(items, groups),
        0 <= i < items.len(),
        0 <= j < items.len(),
        i != j,
        hashed_from(items[i], config, items[i].path, bytes),
        hashed_from(items[j], config, items[j].path, bytes),
    ensures
        exists|g: int|
            0 <= g < groups.len() && #[trigger] groups[g].paths@.contains(items[i].path)
                && groups[g].paths@.contains(items[j].path),
{
    let k = items[i].key();
    assert(items[j].key() == k);
    lemma_two_paths(items, i, j);
    lemma_path_listed(items, i);
    lemma_path_listed(items, j);
    lemma_key_seen(items, i);
    let keys = first_keys(items);
    let p = choose|p: int| 0 <= p < keys.len() && keys[p] == k;
    keys.lemma_filter_contains(reportable_in(items), p);
    let g = choose|g: int|
        0 <= g < collision_keys(items).len() && collision_keys(items)[g] == k;
    assert(groups[g].key() == k);
}

/// Images of different dimensions never share a collision group, whatever
/// their hashes: each path of a group is the path of an image with the
/// group's hash and dimensions.
pub proof fn lemma_groups_keep_dimensions(
    items: Seq<HashedImage>,
    groups: Seq<CollisionGroup>,
    g: int,
    x: int,
)
    requires
        collisions_of(items, groups),
        0 <= g < groups.len(),
        0 <= x < groups[g].paths@.len(),
    ensures
        exists|i: int|
            0 <= i < items.len() && #[trigger] items[i].path == groups[g].paths@[x]
                && items[i].width == groups[g].width && items[i].height == groups[g].height
                && items[i].hash@ == groups[g].hash@,
{
    lemma_path_source(items, groups[g].key(), x);
    let i = choose|i: int|
        0 <= i < items.len() && #[trigger] items[i].key() == groups[g].key() && items[i].path
            == paths_with_key(items, groups[g].key())[x];
    assert(items[i].path == groups[g].paths@[x]);
}

/// Hashes made under different configurations are never compared: two
/// images of different configurations are never both of one group's key.
pub proof fn lemma_configurations_never_compared(
    items: Seq<HashedImage>,
    groups: Seq<CollisionGroup>,
    g: int,
    i: int,
    j: int,
)
    requires
        collisions_of(items, groups),
        0 <= g < groups.len(),
        0 <= i < items.len(),
        0 <= j < items.len(),
        items[i].config != items[j].config,
    ensures
        !(items[i].key() == groups[g].key() && items[j].key() == groups[g].key()),
{
}

/// Fewer than two images, none in particular an empty directory, give no
/// collision group.
pub proof fn lemma_fewer_than_two_no_collisions(
    items: Seq<HashedImage>,
    groups: Seq<CollisionGroup>,
)
    requires
        collisions_of(items, groups),
        items.len() <= 1,
    ensures
        groups.len() == 0,
{
    let keys = collision_keys(items);
    if keys.len() > 0 {
        first_keys(items).lemma_filter_pred(reportable_in(items), 0);
        lemma_paths_bounded(items, keys[0]);
    }
}

/// A path that no hashed image has is in no collision group.
pub proof fn lemma_unknown_path_in_no_group(
    items: Seq<HashedImage>,
    groups: Seq<CollisionGroup>,
    p: String,
)
    requires
        collisions_of(items, groups),
        forall|i: int| 0 <= i < items.len() ==> #[trigger] items[i].path != p,
    ensures
        forall|g: int| 0 <= g < groups.len() ==> !(#[trigger] groups[g].paths@.contains(p)),
{
    assert forall|g: int| 0 <= g < groups.len() implies !(#[trigger] groups[g].paths@.contains(
        p,
    )) by {
        if groups[g].paths@.contains(p) {
            let x = choose|x: int| 0 <= x < groups[g].paths@.len() && groups[g].paths@[x] == p;
            lemma_path_source(items, groups[g].key(), x);
        }
    }
}

} // verus!
