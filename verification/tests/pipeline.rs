use objstore::block_ref::BlockRef;
use objstore::data::{hash, BlockHash, Uuid};
use objstore::delete::{handle_delete, is_active};
use objstore::error::Error;
use objstore::get::{block_sequence, handle_get, handle_head, select_version, BodyPlan, ResponseHeaders};
use objstore::object::{Object, ObjectVersionData};
use objstore::put::{
    handle_put, plan_put, put_block_meta, BlockWrite, PutPlan, PutStart, PutStep, INLINE_THRESHOLD,
};
use objstore::response::delete_response_body;
use objstore::version::{Version, VersionBlock};

/// The tables and the block store of one node, held in memory.
struct Node {
    objects: Vec<Object>,
    versions: Vec<Version>,
    block_refs: Vec<BlockRef>,
    blocks: Vec<(BlockHash, Vec<u8>)>,
    next_uuid: u8,
}

impl Node {
    fn new() -> Node {
        Node { objects: vec![], versions: vec![], block_refs: vec![], blocks: vec![], next_uuid: 1 }
    }

    fn fresh_uuid(&mut self) -> Uuid {
        let u = Uuid { bytes: [self.next_uuid; 16] };
        self.next_uuid += 1;
        u
    }

    fn object(&self, bucket: &str, key: &str) -> Option<&Object> {
        self.objects.iter().find(|o| o.bucket() == bucket && o.key() == key)
    }

    fn version(&self, uuid: &Uuid) -> Option<&Version> {
        self.versions.iter().find(|v| v.uuid() == *uuid)
    }

    fn block(&self, h: &BlockHash) -> Result<Vec<u8>, Error> {
        match self.blocks.iter().find(|(k, _)| k == h) {
            Some((_, bytes)) => Ok(bytes.clone()),
            None => Err(Error::BlockUnavailable),
        }
    }

    fn insert_object(&mut self, o: &Object) {
        match self.objects.iter_mut().find(|x| x.bucket() == o.bucket() && x.key() == o.key()) {
            Some(held) => held.merge(o),
            None => self.objects.push(o.clone()),
        }
    }

    fn insert_version(&mut self, v: &Version) {
        match self.versions.iter_mut().find(|x| x.uuid() == v.uuid()) {
            Some(held) => held.merge(v),
            None => self.versions.push(v.clone()),
        }
    }

    fn insert_block_ref(&mut self, r: &BlockRef) {
        match self.block_refs.iter_mut().find(|x| x.block == r.block && x.version == r.version) {
            Some(held) => held.merge(r),
            None => self.block_refs.push(*r),
        }
    }

    fn perform(&mut self, w: &BlockWrite) {
        assert_eq!(hash(&w.block), w.hash);
        if !self.blocks.iter().any(|(k, _)| *k == w.hash) {
            self.blocks.push((w.hash, w.block.clone()));
        }
        self.insert_version(&w.version);
        self.insert_block_ref(&w.block_ref);
    }

    fn apply(&mut self, plan: &PutPlan) {
        self.insert_object(&plan.first);
        for w in &plan.writes {
            self.perform(w);
        }
        if let Some(last) = &plan.last {
            self.insert_object(last);
        }
    }

    fn put(
        &mut self,
        bucket: &str,
        key: &str,
        mime: &str,
        ts: u64,
        body: &[u8],
        block_size: usize,
        threshold: usize,
    ) -> Result<Uuid, Error> {
        let uuid = self.fresh_uuid();
        let plan = plan_put(uuid, ts, mime, bucket, key, body, block_size, threshold)?;
        self.apply(&plan);
        Ok(uuid)
    }

    fn get(&self, bucket: &str, key: &str) -> Result<(ResponseHeaders, Vec<u8>), Error> {
        let (headers, plan) = handle_get(self.object(bucket, key))?;
        match plan {
            BodyPlan::Inline(bytes) => Ok((headers, bytes)),
            BodyPlan::Blocks { version_uuid, first_block } => {
                let first = self.block(&first_block)?;
                let seq = block_sequence(self.version(&version_uuid), first)?;
                let mut body = Vec::new();
                for fetch in seq {
                    match fetch.prefetched {
                        Some(bytes) => body.extend(bytes),
                        None => body.extend(self.block(&fetch.hash)?),
                    }
                }
                Ok((headers, body))
            }
        }
    }

    fn delete(&mut self, bucket: &str, key: &str, ts: u64) -> Uuid {
        let uuid = self.fresh_uuid();
        let d = handle_delete(self.object(bucket, key), bucket, key, uuid, ts);
        if let Some(o) = &d.insert {
            self.insert_object(o);
        }
        d.version_uuid
    }

    fn sync_from(&mut self, other: &Node) {
        for o in &other.objects {
            self.insert_object(o);
        }
        for v in &other.versions {
            self.insert_version(v);
        }
        for r in &other.block_refs {
            self.insert_block_ref(r);
        }
        for (h, b) in &other.blocks {
            if !self.blocks.iter().any(|(k, _)| k == h) {
                self.blocks.push((*h, b.clone()));
            }
        }
    }
}

fn body(len: usize) -> Vec<u8> {
    (0..len).map(|i| (i * 7 % 253) as u8).collect()
}

#[test]
fn inline_put_then_get() {
    let mut node = Node::new();
    node.put("b", "k", "text/plain", 1, b"hello", 1048576, 3072).unwrap();
    let (headers, got) = node.get("b", "k").unwrap();
    assert_eq!(got, b"hello");
    assert_eq!(headers.content_length, 5);
    assert_eq!(headers.content_type, "text/plain");
    assert_eq!(headers.last_modified, 1);
    assert!(node.versions.is_empty());
    assert!(node.blocks.is_empty());
    assert_eq!(handle_head(node.object("b", "k")).unwrap(), headers);
}

#[test]
fn streaming_put_of_ten_bytes_in_blocks_of_four() {
    let mut node = Node::new();
    let uuid = node.put("b", "k", "app/octet", 1, b"abcdefghij", 4, 3).unwrap();
    assert_eq!(node.versions.len(), 1);
    let v = node.version(&uuid).unwrap();
    let offsets: Vec<u64> = v.blocks().iter().map(|b| b.offset).collect();
    assert_eq!(offsets, vec![0, 4, 8]);
    let lens: Vec<usize> = v.blocks().iter().map(|b| node.block(&b.hash).unwrap().len()).collect();
    assert_eq!(lens, vec![4, 4, 2]);
    assert_eq!(v.blocks()[0].hash, hash(b"abcd"));
    assert_eq!(v.blocks()[1].hash, hash(b"efgh"));
    assert_eq!(v.blocks()[2].hash, hash(b"ij"));
    let o = node.object("b", "k").unwrap();
    assert_eq!(o.versions().len(), 1);
    assert_eq!(o.versions()[0].size, 10);
    assert!(o.versions()[0].is_complete);
    assert_eq!(o.versions()[0].data, ObjectVersionData::FirstBlock(hash(b"abcd")));
    assert_eq!(node.block_refs.len(), 3);
    assert!(node.block_refs.iter().all(|r| r.version == uuid && !r.deleted));
    let (headers, got) = node.get("b", "k").unwrap();
    assert_eq!(got, b"abcdefghij");
    assert_eq!(headers.content_length, 10);
}

#[test]
fn put_then_get_returns_the_body() {
    for len in [1usize, 2, 15, 16, 17, 31, 32, 33, 160, 161, 1000] {
        let b = body(len);
        let mut node = Node::new();
        node.put("b", "k", "app/octet", 5, &b, 16, 8).unwrap();
        let (headers, got) = node.get("b", "k").unwrap();
        assert_eq!(got, b);
        assert_eq!(headers.content_length, len as u64);
        let o = node.object("b", "k").unwrap();
        match &o.versions()[0].data {
            ObjectVersionData::FirstBlock(h0) => {
                let v = node.version(&o.versions()[0].uuid).unwrap();
                assert_eq!(v.blocks()[0].hash, *h0);
                assert_eq!(v.blocks()[0].offset, 0);
                assert_eq!(v.blocks().len(), (len + 15) / 16);
                let total: usize =
                    v.blocks().iter().map(|b| node.block(&b.hash).unwrap().len()).sum();
                assert_eq!(total as u64, o.versions()[0].size);
            }
            ObjectVersionData::Inline(bytes) => {
                assert!(len < 8);
                assert_eq!(bytes, &b);
            }
            ObjectVersionData::DeleteMarker => panic!("a PUT wrote a delete marker"),
        }
    }
}

#[test]
fn putting_the_same_bytes_twice_gives_two_versions_and_the_same_body() {
    let b = body(40);
    let mut node = Node::new();
    let first = node.put("b", "k", "app/octet", 1, &b, 16, 8).unwrap();
    let second = node.put("b", "k", "app/octet", 2, &b, 16, 8).unwrap();
    assert_ne!(first, second);
    assert_eq!(node.object("b", "k").unwrap().versions().len(), 2);
    assert_eq!(node.get("b", "k").unwrap().1, b);
    assert_eq!(node.blocks.len(), 3);
    assert_eq!(node.block_refs.len(), 6);
}

#[test]
fn empty_body_is_a_bad_request() {
    let mut node = Node::new();
    match node.put("b", "k", "text/plain", 1, b"", 16, 8) {
        Err(Error::BadRequest(m)) => assert_eq!(m, "Empty body"),
        other => panic!("unexpected: {:?}", other),
    }
    assert!(node.objects.is_empty());
    let u = Uuid { bytes: [9; 16] };
    match handle_put(u, 1, "text/plain", "b", "k", None, INLINE_THRESHOLD) {
        Err(Error::BadRequest(m)) => assert_eq!(m, "Empty body"),
        other => panic!("unexpected: {:?}", other),
    }
}

#[test]
fn inline_threshold_is_the_boundary_between_the_paths() {
    assert_eq!(INLINE_THRESHOLD, 3072);
    let u = Uuid { bytes: [9; 16] };
    let below = vec![1u8; INLINE_THRESHOLD - 1];
    match handle_put(u, 1, "t", "b", "k", Some(below.clone()), INLINE_THRESHOLD) {
        Ok(PutStart::Inline { object }) => {
            let v = &object.versions()[0];
            assert_eq!(v.data, ObjectVersionData::Inline(below));
            assert!(v.is_complete);
            assert_eq!(v.size, 3071);
        }
        other => panic!("unexpected: {:?}", other),
    }
    let at = vec![1u8; INLINE_THRESHOLD];
    match handle_put(u, 1, "t", "b", "k", Some(at.clone()), INLINE_THRESHOLD) {
        Ok(PutStart::Streaming { object, write, mut session }) => {
            let v = &object.versions()[0];
            assert_eq!(v.data, ObjectVersionData::FirstBlock(hash(&at)));
            assert!(!v.is_complete);
            assert_eq!(v.size, 3072);
            assert_eq!(write.hash, hash(&at));
            assert_eq!(write.block, at);
            assert_eq!(write.version.blocks(), &vec![VersionBlock { offset: 0, hash: hash(&at) }]);
            assert_eq!(write.block_ref, BlockRef::new(hash(&at), u));
            assert_eq!(session.uuid(), u);
            assert_eq!(session.next_offset(), 3072);
            match session.advance(None) {
                PutStep::Finish { object } => {
                    assert!(object.versions()[0].is_complete);
                    assert_eq!(object.versions()[0].size, 3072);
                }
                other => panic!("unexpected: {:?}", other),
            }
        }
        other => panic!("unexpected: {:?}", other),
    }
    let mut node = Node::new();
    node.put("b", "k", "t", 1, &at, 1048576, INLINE_THRESHOLD).unwrap();
    assert_eq!(node.versions[0].blocks().len(), 1);
}

#[test]
fn session_writes_each_block_where_the_last_one_ended() {
    let u = Uuid { bytes: [9; 16] };
    let start = handle_put(u, 1, "t", "b", "k", Some(b"abcd".to_vec()), 3).unwrap();
    let mut session = match start {
        PutStart::Streaming { session, .. } => session,
        other => panic!("unexpected: {:?}", other),
    };
    assert!(session.has_room(4));
    let w = match session.advance(Some(b"efgh".to_vec())) {
        PutStep::Write(w) => w,
        other => panic!("unexpected: {:?}", other),
    };
    assert_eq!(w.version.blocks(), &vec![VersionBlock { offset: 4, hash: hash(b"efgh") }]);
    assert_eq!(w.version.uuid(), u);
    assert_eq!(w.block_ref, BlockRef { block: hash(b"efgh"), version: u, deleted: false });
    assert_eq!(session.next_offset(), 8);
    assert!(!session.has_room(usize::MAX));
}

#[test]
fn block_meta_grows_the_version_by_one_block() {
    let u = Uuid { bytes: [9; 16] };
    let h = hash(b"abcd");
    let v = Version::new(u, "b".to_string(), "k".to_string(), false, vec![]);
    let (grown, r) = put_block_meta(&v, 0, h);
    assert_eq!(grown.blocks(), &vec![VersionBlock { offset: 0, hash: h }]);
    assert_eq!(r, BlockRef { block: h, version: u, deleted: false });
    assert!(v.blocks().is_empty());
}

#[test]
fn delete_then_get_is_not_found() {
    let mut node = Node::new();
    node.put("b", "k", "app/octet", 1, b"xxxx", 1048576, 3072).unwrap();
    let uuid = node.delete("b", "k", 2);
    assert!(!uuid.is_zero());
    assert!(matches!(node.get("b", "k"), Err(Error::NotFound)));
    assert_eq!(Error::NotFound.http_status_code(), 404);
    let o = node.object("b", "k").unwrap();
    let last = o.versions().last().unwrap();
    assert_eq!(last.uuid, uuid);
    assert_eq!(last.mime_type, "application/x-delete-marker");
    assert_eq!(last.size, 0);
    assert!(last.is_complete);
    assert_eq!(last.data, ObjectVersionData::DeleteMarker);
    assert_eq!(last.timestamp, 2);
}

#[test]
fn delete_of_an_absent_key_answers_the_zero_uuid() {
    let mut node = Node::new();
    let uuid = node.delete("b", "missing", 1);
    assert!(uuid.is_zero());
    assert!(node.objects.is_empty());
    assert_eq!(delete_response_body(&uuid), format!("{}\n", "0".repeat(32)));
}

#[test]
fn delete_after_delete_of_nothing_is_a_no_op() {
    let mut node = Node::new();
    assert!(node.delete("b", "k", 1).is_zero());
    assert!(node.delete("b", "k", 2).is_zero());
    assert!(node.objects.is_empty());
    let only_markers = Object::new(
        "b".to_string(),
        "k".to_string(),
        vec![objstore::object::ObjectVersion {
            uuid: Uuid { bytes: [7; 16] },
            timestamp: 3,
            mime_type: "application/x-delete-marker".to_string(),
            size: 0,
            is_complete: true,
            data: ObjectVersionData::DeleteMarker,
        }],
    );
    assert!(!is_active(&only_markers));
    node.insert_object(&only_markers);
    assert!(node.delete("b", "k", 4).is_zero());
    assert!(node.delete("b", "k", 5).is_zero());
    assert_eq!(node.object("b", "k").unwrap(), &only_markers);
}

#[test]
fn delete_does_not_touch_the_block_store() {
    let mut node = Node::new();
    node.put("b", "k", "app/octet", 1, &body(40), 16, 8).unwrap();
    let blocks = node.blocks.len();
    let refs = node.block_refs.clone();
    node.delete("b", "k", 2);
    assert_eq!(node.blocks.len(), blocks);
    assert_eq!(node.block_refs, refs);
}

#[test]
fn concurrent_puts_converge_on_the_later_one() {
    let b1 = body(40);
    let b2 = body(50);
    let mut a = Node::new();
    let mut b = Node::new();
    b.next_uuid = 100;
    a.put("b", "k", "app/octet", 100, &b1, 16, 8).unwrap();
    b.put("b", "k", "app/octet", 200, &b2, 16, 8).unwrap();
    let a_before = Node {
        objects: a.objects.clone(),
        versions: a.versions.clone(),
        block_refs: a.block_refs.clone(),
        blocks: a.blocks.clone(),
        next_uuid: a.next_uuid,
    };
    a.sync_from(&b);
    b.sync_from(&a_before);
    assert_eq!(a.get("b", "k").unwrap().1, b2);
    assert_eq!(b.get("b", "k").unwrap().1, b2);
    assert_eq!(a.object("b", "k"), b.object("b", "k"));
    assert_eq!(a.object("b", "k").unwrap().versions().len(), 2);
}

#[test]
fn a_put_that_stops_midway_leaves_an_orphan() {
    let mut node = Node::new();
    let uuid = node.fresh_uuid();
    let plan = plan_put(uuid, 1, "app/octet", "b", "k", b"abcdefghij", 4, 3).unwrap();
    node.insert_object(&plan.first);
    node.perform(&plan.writes[0]);
    node.perform(&plan.writes[1]);
    assert!(matches!(node.get("b", "k"), Err(Error::NotFound)));
    assert!(matches!(handle_head(node.object("b", "k")), Err(Error::NotFound)));
    assert_eq!(select_version(node.object("b", "k").unwrap(), false), None);
    assert_eq!(node.version(&uuid).unwrap().blocks().len(), 2);
    assert_eq!(node.block_refs.len(), 2);
    assert!(node.block_refs.iter().all(|r| !r.deleted));
    assert!(!node.object("b", "k").unwrap().versions()[0].is_complete);
}

#[test]
fn get_of_an_absent_object_is_not_found() {
    let node = Node::new();
    assert!(matches!(node.get("b", "k"), Err(Error::NotFound)));
    assert!(matches!(handle_head(None), Err(Error::NotFound)));
}

#[test]
fn get_without_the_version_record_is_not_found() {
    assert!(matches!(block_sequence(None, b"abcd".to_vec()), Err(Error::NotFound)));
}

#[test]
fn get_of_a_version_without_blocks_is_an_internal_error() {
    let v = Version::new(Uuid { bytes: [1; 16] }, "b".to_string(), "k".to_string(), false, vec![]);
    let e = block_sequence(Some(&v), b"abcd".to_vec()).unwrap_err();
    assert!(matches!(e, Error::Internal(_)));
    assert_eq!(e.http_status_code(), 500);
}

#[test]
fn get_fails_when_a_block_is_missing() {
    let mut node = Node::new();
    node.put("b", "k", "app/octet", 1, b"abcdefghij", 4, 3).unwrap();
    node.blocks.retain(|(h, _)| *h != hash(b"efgh"));
    assert!(matches!(node.get("b", "k"), Err(Error::BlockUnavailable)));
}

#[test]
fn block_sequence_prefetches_the_first_block_only() {
    let mut node = Node::new();
    let uuid = node.put("b", "k", "app/octet", 1, b"abcdefghij", 4, 3).unwrap();
    let seq = block_sequence(node.version(&uuid), b"abcd".to_vec()).unwrap();
    assert_eq!(seq.len(), 3);
    assert_eq!(seq[0].hash, hash(b"abcd"));
    assert_eq!(seq[0].prefetched, Some(b"abcd".to_vec()));
    assert_eq!(seq[1].hash, hash(b"efgh"));
    assert_eq!(seq[1].prefetched, None);
    assert_eq!(seq[2].hash, hash(b"ij"));
    assert_eq!(seq[2].prefetched, None);
}

#[test]
fn head_skips_delete_markers_and_get_does_not() {
    let mut node = Node::new();
    node.put("b", "k", "text/plain", 1, b"hello", 1048576, 3072).unwrap();
    node.delete("b", "k", 2);
    let o = node.object("b", "k").unwrap();
    assert_eq!(select_version(o, false), Some(1));
    assert_eq!(select_version(o, true), Some(0));
    assert!(matches!(handle_get(Some(o)), Err(Error::NotFound)));
}

#[test]
fn blocks_smaller_than_the_threshold_are_inlined_whole() {
    let mut node = Node::new();
    let b = vec![5u8; 3071];
    node.put("b", "k", "t", 1, &b, 1048576, 3072).unwrap();
    let o = node.object("b", "k").unwrap();
    assert_eq!(o.versions()[0].data, ObjectVersionData::Inline(b.clone()));
    assert_eq!(node.get("b", "k").unwrap().1, b);
}

#[test]
fn body_of_k_block_sizes_gives_k_version_blocks() {
    for k in [1usize, 2, 3, 10] {
        let mut node = Node::new();
        let uuid = node.put("b", "k", "t", 1, &body(k * 16), 16, 8).unwrap();
        assert_eq!(node.version(&uuid).unwrap().blocks().len(), k);
    }
}

#[test]
fn body_with_a_remainder_gives_one_more_block() {
    let mut node = Node::new();
    let uuid = node.put("b", "k", "t", 1, &body(3 * 16 + 5), 16, 8).unwrap();
    let v = node.version(&uuid).unwrap();
    assert_eq!(v.blocks().len(), 4);
    assert_eq!(v.blocks()[3].offset, 48);
    assert_eq!(node.block(&v.blocks()[3].hash).unwrap().len(), 5);
}
