use objstore::block_ref::BlockRef;
use objstore::data::{hash, BlockHash, Uuid};
use objstore::object::{Object, ObjectVersion, ObjectVersionData};
use objstore::version::{Version, VersionBlock};

fn uuid(n: u8) -> Uuid {
    Uuid { bytes: [n; 16] }
}

fn inline(n: u8, ts: u64, body: &[u8]) -> ObjectVersion {
    ObjectVersion {
        uuid: uuid(n),
        timestamp: ts,
        mime_type: "text/plain".to_string(),
        size: body.len() as u64,
        is_complete: true,
        data: ObjectVersionData::Inline(body.to_vec()),
    }
}

fn marker(n: u8, ts: u64) -> ObjectVersion {
    ObjectVersion {
        uuid: uuid(n),
        timestamp: ts,
        mime_type: "application/x-delete-marker".to_string(),
        size: 0,
        is_complete: true,
        data: ObjectVersionData::DeleteMarker,
    }
}

fn streamed(n: u8, ts: u64, size: u64, complete: bool, first: BlockHash) -> ObjectVersion {
    ObjectVersion {
        uuid: uuid(n),
        timestamp: ts,
        mime_type: "app/octet".to_string(),
        size,
        is_complete: complete,
        data: ObjectVersionData::FirstBlock(first),
    }
}

fn object(versions: Vec<ObjectVersion>) -> Object {
    Object::new("b".to_string(), "k".to_string(), versions)
}

fn merged(a: &Object, b: &Object) -> Object {
    let mut r = a.clone();
    r.merge(b);
    r
}

#[test]
fn versions_are_laid_out_by_timestamp_then_uuid() {
    let o = object(vec![inline(3, 20, b"c"), inline(2, 10, b"b"), inline(1, 10, b"a")]);
    let order: Vec<(u64, Uuid)> = o.versions().iter().map(|v| (v.timestamp, v.uuid)).collect();
    assert_eq!(order, vec![(10, uuid(1)), (10, uuid(2)), (20, uuid(3))]);
    assert_eq!(o.bucket(), "b");
    assert_eq!(o.key(), "k");
}

#[test]
fn one_uuid_gives_one_version() {
    let h = hash(b"first");
    let o = object(vec![streamed(1, 10, 4, false, h), streamed(1, 10, 10, true, h)]);
    assert_eq!(o.versions().len(), 1);
    assert_eq!(o.versions()[0], streamed(1, 10, 10, true, h));
}

#[test]
fn merging_an_object_with_itself_is_identity() {
    let o = object(vec![inline(1, 10, b"a"), marker(2, 20), streamed(3, 30, 7, false, hash(b"x"))]);
    assert_eq!(merged(&o, &o), o);
}

#[test]
fn merge_order_does_not_matter() {
    let h = hash(b"first");
    let a = object(vec![inline(1, 10, b"a"), streamed(4, 40, 4, false, h)]);
    let b = object(vec![marker(2, 20), streamed(4, 40, 9, true, h)]);
    let c = object(vec![inline(3, 5, b"c"), inline(1, 10, b"z")]);
    let all = [&a, &b, &c];
    let want = merged(&merged(&a, &b), &c);
    for i in 0..3 {
        for j in 0..3 {
            for k in 0..3 {
                if i != j && j != k && i != k {
                    assert_eq!(merged(&merged(all[i], all[j]), all[k]), want);
                    assert_eq!(merged(all[i], &merged(all[j], all[k])), want);
                }
            }
        }
    }
    assert_eq!(want.versions().len(), 4);
}

#[test]
fn merge_joins_the_records_of_one_version() {
    let h = hash(b"first");
    let a = object(vec![streamed(1, 10, 4, false, h)]);
    let b = object(vec![streamed(1, 10, 10, true, h)]);
    let m = merged(&a, &b);
    assert_eq!(m.versions().len(), 1);
    assert!(m.versions()[0].is_complete);
    assert_eq!(m.versions()[0].size, 10);
    assert_eq!(m.versions()[0].data, ObjectVersionData::FirstBlock(h));
}

#[test]
fn a_complete_version_stays_complete() {
    let h = hash(b"first");
    let done = object(vec![streamed(1, 10, 10, true, h)]);
    let stale = object(vec![streamed(1, 10, 4, false, h)]);
    assert!(merged(&done, &stale).versions()[0].is_complete);
    assert!(merged(&stale, &done).versions()[0].is_complete);
    assert_eq!(merged(&done, &stale).versions()[0].size, 10);
}

#[test]
fn conflicting_records_of_one_version_resolve_the_same_way_on_every_replica() {
    let mut x = inline(1, 10, b"abc");
    x.mime_type = "a/a".to_string();
    let mut y = inline(1, 12, b"abd");
    y.mime_type = "b/b".to_string();
    y.size = 2;
    let a = object(vec![x]);
    let b = object(vec![y]);
    let m = merged(&a, &b);
    assert_eq!(m, merged(&b, &a));
    let v = &m.versions()[0];
    assert_eq!(v.timestamp, 12);
    assert_eq!(v.mime_type, "b/b");
    assert_eq!(v.size, 3);
    assert_eq!(v.data, ObjectVersionData::Inline(b"abd".to_vec()));
}

#[test]
fn a_delete_marker_wins_over_data_under_the_same_uuid() {
    let a = object(vec![inline(1, 10, b"abc")]);
    let b = object(vec![marker(1, 10)]);
    let m = merged(&a, &b);
    assert_eq!(m, merged(&b, &a));
    assert_eq!(m.versions()[0].data, ObjectVersionData::DeleteMarker);
    assert_eq!(m.versions()[0].size, 0);
    assert!(m.versions()[0].is_valid());
}

#[test]
fn payload_order_puts_inline_first_and_the_marker_last() {
    let i = ObjectVersionData::Inline(vec![0xff]);
    let f = ObjectVersionData::FirstBlock(BlockHash { bytes: [0u8; 32] });
    let d = ObjectVersionData::DeleteMarker;
    assert!(i.le(&f) && !f.le(&i));
    assert!(f.le(&d) && !d.le(&f));
    assert!(i.le(&d) && !d.le(&i));
    assert!(d.le(&d));
    assert!(ObjectVersionData::Inline(vec![1]).le(&ObjectVersionData::Inline(vec![1, 0])));
    assert!(d.is_delete_marker() && !i.is_delete_marker());
    assert_eq!(i.duplicate(), i);
}

#[test]
fn a_version_with_a_sized_delete_marker_is_not_valid() {
    let mut v = marker(1, 10);
    assert!(v.is_valid());
    v.size = 1;
    assert!(!v.is_valid());
    assert!(inline(1, 1, b"x").is_valid());
}

#[test]
fn version_blocks_are_laid_out_by_offset() {
    let b = |offset: u64, n: u8| VersionBlock { offset, hash: BlockHash { bytes: [n; 32] } };
    let v = Version::new(uuid(1), "b".to_string(), "k".to_string(), false, vec![b(8, 3), b(0, 1), b(4, 2)]);
    assert_eq!(v.blocks(), &vec![b(0, 1), b(4, 2), b(8, 3)]);
    assert_eq!(v.uuid(), uuid(1));
    assert!(!v.is_deleted());
    assert_eq!(v.bucket(), "b");
    assert_eq!(v.key(), "k");
}

#[test]
fn add_block_appends_above_the_last_offset_only() {
    let b = |offset: u64| VersionBlock { offset, hash: BlockHash { bytes: [offset as u8; 32] } };
    let mut v = Version::new(uuid(1), "b".to_string(), "k".to_string(), false, vec![]);
    assert_eq!(v.add_block(b(0)), Ok(()));
    assert_eq!(v.add_block(b(4)), Ok(()));
    assert_eq!(v.add_block(b(4)), Err(()));
    assert_eq!(v.add_block(b(2)), Err(()));
    assert_eq!(v.add_block(b(8)), Ok(()));
    assert_eq!(v.blocks(), &vec![b(0), b(4), b(8)]);
}

#[test]
fn version_merge_unites_the_blocks_and_keeps_the_tombstone() {
    let b = |offset: u64, n: u8| VersionBlock { offset, hash: BlockHash { bytes: [n; 32] } };
    let new = |deleted: bool, blocks: Vec<VersionBlock>| {
        Version::new(uuid(1), "b".to_string(), "k".to_string(), deleted, blocks)
    };
    let x = new(false, vec![b(0, 1), b(8, 3)]);
    let y = new(true, vec![b(4, 2), b(8, 9)]);
    let mut xy = x.clone();
    xy.merge(&y);
    let mut yx = y.clone();
    yx.merge(&x);
    assert_eq!(xy, yx);
    assert!(xy.is_deleted());
    assert_eq!(xy.blocks(), &vec![b(0, 1), b(4, 2), b(8, 9)]);
    let mut xx = x.clone();
    xx.merge(&x);
    assert_eq!(xx, x);
    assert_eq!(x.duplicate(), x);
}

#[test]
fn block_ref_tombstone_never_comes_back() {
    let live = BlockRef::new(hash(b"x"), uuid(1));
    assert!(!live.deleted);
    let mut dead = live;
    dead.deleted = true;
    let mut a = live;
    a.merge(&dead);
    assert!(a.deleted);
    let mut b = dead;
    b.merge(&live);
    assert!(b.deleted);
    assert_eq!(a, b);
    let mut c = live;
    c.merge(&live);
    assert_eq!(c, live);
}

#[test]
fn a_delete_marker_is_not_reverted_by_an_older_version() {
    let with_marker = object(vec![inline(1, 10, b"old"), marker(2, 20)]);
    let older = object(vec![inline(3, 15, b"late arrival")]);
    let m = merged(&with_marker, &older);
    assert_eq!(m, merged(&older, &with_marker));
    let got = objstore::get::handle_get(Some(&m));
    assert!(matches!(got, Err(objstore::error::Error::NotFound)));
    assert_eq!(objstore::get::select_version(&m, false), Some(2));
    assert_eq!(m.versions()[2], marker(2, 20));
}

#[test]
fn an_object_of_one_version() {
    let o = Object::single("b".to_string(), "k".to_string(), inline(1, 10, b"a"));
    assert_eq!(o, object(vec![inline(1, 10, b"a")]));
    assert_eq!(o.versions().len(), 1);
}
