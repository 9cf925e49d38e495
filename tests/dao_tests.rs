use videoinfo::dao::{
    cache_step, new_file_record, CacheAction, CacheEvent, CacheResolver, CacheStep, InsertOutcome,
};
use videoinfo::es::search_query;
use videoinfo::model::FileInfo;

fn stored(key: &str, path: &str) -> FileInfo {
    FileInfo::new(9, key.to_string(), 300, path.to_string(), 1000)
}

#[test]
fn hit_returns_stored_record_unchanged() {
    let r = CacheResolver::new("k1".to_string(), "/new/place.mp4".to_string());
    let (r, a) = cache_step(r, CacheEvent::Found(Some(stored("k1", "/old/place.mp4"))));
    assert!(matches!(r.step, CacheStep::Resolved(_)));
    match a {
        CacheAction::Return(f) => {
            assert_eq!(f.file_path, "/old/place.mp4");
            assert_eq!(f.id, 9);
        },
        _ => panic!("expected a record"),
    }
}

#[test]
fn miss_derives_and_inserts() {
    let r = CacheResolver::new("k2".to_string(), "/v/a.mp4".to_string());
    let (r, a) = cache_step(r, CacheEvent::Found(None));
    assert!(matches!(a, CacheAction::DeriveFrameCount));
    let (r, a) = cache_step(r, CacheEvent::Derived { frames: 4500, size: 5_000_000_000 });
    match a {
        CacheAction::Insert(ref f) => {
            assert_eq!(f.hash_key, "k2");
            assert_eq!(f.total_frame, 4500);
            assert_eq!(f.file_path, "/v/a.mp4");
            assert_eq!(f.file_size, (5_000_000_000u64 % 4294967296) as u32);
        },
        _ => panic!("expected an insertion"),
    }
    let (r, a) = cache_step(r, CacheEvent::Stored(InsertOutcome::Inserted));
    assert!(matches!(r.step, CacheStep::Resolved(_)));
    assert!(matches!(a, CacheAction::Return(ref f) if f.hash_key == "k2"));
}

#[test]
fn lost_race_recovers_by_lookup() {
    let r = CacheResolver::new("k3".to_string(), "/v/b.mp4".to_string());
    let (r, _) = cache_step(r, CacheEvent::Found(None));
    let (r, _) = cache_step(r, CacheEvent::Derived { frames: 10, size: 10 });
    let (r, a) = cache_step(r, CacheEvent::Stored(InsertOutcome::AlreadyExists));
    assert!(matches!(a, CacheAction::LookupAgain));
    let (r, a) = cache_step(r, CacheEvent::Found(Some(stored("k3", "/v/other.mp4"))));
    assert!(matches!(r.step, CacheStep::Resolved(_)));
    assert!(matches!(a, CacheAction::Return(ref f) if f.hash_key == "k3" && f.file_path == "/v/other.mp4"));
}

#[test]
fn errors_end_resolution() {
    let r = CacheResolver::new("k4".to_string(), "/v/c.mp4".to_string());
    let (r, _) = cache_step(r, CacheEvent::Found(None));
    let (r, a) = cache_step(r, CacheEvent::Error);
    assert!(matches!(r.step, CacheStep::Failed));
    assert!(matches!(a, CacheAction::Fail));
    let (r, a) = cache_step(r, CacheEvent::Found(None));
    assert!(matches!(r.step, CacheStep::Failed));
    assert!(matches!(a, CacheAction::Skip));
}

#[test]
fn record_for_new_file() {
    let f = new_file_record(&"k".to_string(), 5, &"/v/d.mp4".to_string(), 123);
    assert_eq!(f.id, 0);
    assert_eq!(f.hash_key, "k");
    assert_eq!(f.total_frame, 5);
    assert_eq!(f.file_size, 123);
}

#[test]
fn query_has_video_filter() {
    assert_eq!(search_query("cat"), "size:>128MB .mp4|.avi|.wmv|.mkv|.mpg|.rmvb|.iso|.bt.xltd cat");
}

#[test]
fn two_racing_resolutions_share_one_record() {
    // one stored row per fingerprint, filled only while empty
    let mut row: Option<FileInfo> = None;
    let a = CacheResolver::new("k5".to_string(), "/x/a.mp4".to_string());
    let b = CacheResolver::new("k5".to_string(), "/y/a-copy.mp4".to_string());
    let (a, _) = cache_step(a, CacheEvent::Found(None));
    let (b, _) = cache_step(b, CacheEvent::Found(None));
    let (a, ia) = cache_step(a, CacheEvent::Derived { frames: 7, size: 70 });
    let (b, ib) = cache_step(b, CacheEvent::Derived { frames: 7, size: 70 });
    let mut store = |action: CacheAction| match action {
        CacheAction::Insert(rec) => {
            if row.is_none() {
                row = Some(rec);
                InsertOutcome::Inserted
            } else {
                InsertOutcome::AlreadyExists
            }
        }
        _ => panic!("expected an insertion"),
    };
    let oa = store(ia);
    let ob = store(ib);
    assert_eq!(oa, InsertOutcome::Inserted);
    assert_eq!(ob, InsertOutcome::AlreadyExists);
    let (_, ra) = cache_step(a, CacheEvent::Stored(oa));
    let (b, rb) = cache_step(b, CacheEvent::Stored(ob));
    assert!(matches!(rb, CacheAction::LookupAgain));
    let stored_row = row.as_ref().unwrap();
    let (_, rb) = cache_step(b, CacheEvent::Found(Some(stored(&stored_row.hash_key, &stored_row.file_path))));
    match (ra, rb) {
        (CacheAction::Return(x), CacheAction::Return(y)) => {
            assert_eq!(x.hash_key, "k5");
            assert_eq!(y.hash_key, "k5");
            assert_eq!(y.file_path, "/x/a.mp4");
        }
        _ => panic!("both resolutions should return a record"),
    }
}
