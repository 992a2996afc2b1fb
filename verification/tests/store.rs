//! The versioned store and the dedup engine, exercised end to end against
//! the real backing database.

use repost_store::errors::DatabaseError;
use repost_store::hashing::ImageHash;
use repost_store::record::SeenImage;
use repost_store::store::{Data, PreviouslySeen};

#[test]
fn databse_version_moves() {
    let db = Data::init("").unwrap();
    assert_eq!(db.schema_version().unwrap(), 1);
}

#[test]
fn store_and_fetch() {
    let mut db = Data::init("").unwrap();

    let original = SeenImage::new("testing".to_string(), 773, 242343331, 238484343);

    let hash = ImageHash::from_bytes(&[1, 1, 1, 1, 1, 1, 1, 1]).unwrap();
    db.record_image(&hash, original.clone()).unwrap();

    db.access_image(&[1, 2, 3], |fetched| {
        assert_eq!(fetched.author(), original.author);
        (fetched, false)
    })
    .unwrap();
}

#[test]
fn store_duplicates() {
    let mut db = Data::init("").unwrap();
    let id = ImageHash::from_bytes(&[1, 2, 3, 4, 5, 6, 7, 8]).unwrap();

    let original = SeenImage::new(
        "testing_but_looooooooooooonnnng".to_string(),
        26543654564,
        59849292,
        3424324234,
    );

    let existing = db.record_image(&id, original.clone()).unwrap();
    assert_eq!(existing, PreviouslySeen::No);
    assert_eq!(db.total_seen(), 1);

    let newer = SeenImage::new("someone else".to_string(), 555555555, 4384834303, 434343423);

    let old = db.record_image(&id, newer).unwrap();

    let (old, times_seen) = match old {
        PreviouslySeen::Yes { image, times_seen } => (image, times_seen),
        _ => panic!("wrong seen variant"),
    };

    assert_eq!(old, original);
    assert_eq!(times_seen, 2);
}

#[test]
fn store_similar() {
    let mut db = Data::init("").unwrap();
    let id = ImageHash::from_bytes(&[1, 2, 3, 4, 5, 6, 7, 8]).unwrap();

    let original = SeenImage::new(
        "testing_but_looooooooooooonnnng".to_string(),
        26543654564,
        59849292,
        43434234342,
    );

    db.record_image(&id, original.clone()).unwrap();

    let newer = SeenImage::new("someone else".to_string(), 555555555, 4384834303, 323243434);
    let newer_id = ImageHash::from_bytes(&[1, 2, 3, 4, 5, 6, 7, 7]).unwrap();

    let old = db.record_image(&newer_id, newer).unwrap();

    let old = match old {
        PreviouslySeen::Yes { image, .. } => image,
        _ => panic!("wrong seen variant"),
    };

    assert_eq!(old, original)
}

#[test]
fn mismatched_usize_fails_to_init() {
    let test_path = "/tmp/repost_store_usize_test";

    // Fake a store made on a 32-bit system.
    {
        let db = sled::Config::new().path(test_path).open().unwrap();
        let smaller_usize = core::mem::size_of::<u32>() as u32;
        db.insert("usize", &smaller_usize.to_ne_bytes()[..]).unwrap();
    }

    let failed = Data::init(test_path);
    assert!(failed.is_err());
    assert!(matches!(failed, Err(DatabaseError::PointerWidthMismatch)));
}

#[test]
fn fresh_store_writes_version_and_width() {
    let test_path = "/tmp/repost_store_fresh_marker_test";
    {
        let db = Data::init(test_path).unwrap();
        assert_eq!(db.schema_version().unwrap(), 1);
    }
    let raw = sled::Config::new().path(test_path).open().unwrap();
    let marker = raw.get("usize").unwrap().unwrap();
    assert_eq!(marker.len(), core::mem::size_of::<usize>());
    let version = raw.get("version").unwrap().unwrap();
    assert_eq!(&version[..], &[1][..]);
}

#[test]
fn future_version_fails_to_init() {
    let test_path = "/tmp/repost_store_future_version_test";
    {
        let db = sled::Config::new().path(test_path).open().unwrap();
        let width = core::mem::size_of::<usize>().to_ne_bytes();
        db.insert("usize", &width[..]).unwrap();
        db.insert("version", &[9][..]).unwrap();
    }
    let failed = Data::init(test_path);
    assert!(matches!(failed, Err(DatabaseError::UnsupportedVersion)));
}

#[test]
fn corrupt_hash_index_fails_to_init() {
    let test_path = "/tmp/repost_store_corrupt_index_test";
    {
        let db = sled::Config::new().path(test_path).open().unwrap();
        let width = core::mem::size_of::<usize>().to_ne_bytes();
        db.insert("usize", &width[..]).unwrap();
        db.insert("version", &[1][..]).unwrap();
        let hashes = db.open_tree("hash_tree").unwrap();
        // A hash entry pointing at an ID nothing else holds.
        hashes
            .insert(&[9, 9, 9, 9, 9, 9, 9, 9][..], &[1, 0, 0, 0, 0, 0, 0, 0][..])
            .unwrap();
    }
    let failed = Data::init(test_path);
    assert!(matches!(failed, Err(DatabaseError::Corrupted)));
}

#[test]
fn exact_match_counts_up_by_one() {
    let mut db = Data::init("").unwrap();
    let hash = ImageHash::from_bytes(&[42, 0, 0, 0, 0, 0, 0, 0]).unwrap();
    let record = SeenImage::new("alice".to_string(), 1000, 1, 2);
    assert_eq!(
        db.record_image(&hash, record.clone()).unwrap(),
        PreviouslySeen::No
    );
    for expected in 2..6u64 {
        let result = db
            .record_image(&hash, SeenImage::new("bob".to_string(), 2000, 3, 4))
            .unwrap();
        match result {
            PreviouslySeen::Yes { image, times_seen } => {
                assert_eq!(times_seen, expected);
                assert_eq!(image, record);
            }
            _ => panic!("wrong seen variant"),
        }
    }
    assert_eq!(db.total_seen(), 1);
}

#[test]
fn original_record_fields_preserved() {
    let mut db = Data::init("").unwrap();
    let h1 = ImageHash::from_bytes(&[7, 7, 7, 7, 7, 7, 7, 7]).unwrap();
    let first = SeenImage::new("alice".to_string(), 1000, 11, 22);
    assert_eq!(db.record_image(&h1, first).unwrap(), PreviouslySeen::No);

    let second = SeenImage::new("bob".to_string(), 2000, 33, 44);
    match db.record_image(&h1, second).unwrap() {
        PreviouslySeen::Yes { image, times_seen } => {
            assert_eq!(times_seen, 2);
            assert_eq!(image.author, "alice".to_string());
            assert_eq!(image.sent, 1000);
            assert_eq!(image.original_message_id, 11);
            assert_eq!(image.channel_id, 22);
            assert!(!image.ignored);
        }
        _ => panic!("wrong seen variant"),
    }
}

#[test]
fn distant_hashes_make_two_clusters() {
    let mut db = Data::init("").unwrap();
    let h1 = ImageHash::from_bytes(&[0, 0, 0, 0, 0, 0, 0, 0]).unwrap();
    let h2 = ImageHash::from_bytes(&[255, 255, 255, 0, 0, 0, 0, 0]).unwrap();
    let r1 = SeenImage::new("a".to_string(), 1, 2, 3);
    let r2 = SeenImage::new("b".to_string(), 4, 5, 6);
    assert_eq!(db.record_image(&h1, r1.clone()).unwrap(), PreviouslySeen::No);
    assert_eq!(db.record_image(&h2, r2.clone()).unwrap(), PreviouslySeen::No);
    assert_eq!(db.total_seen(), 2);
    // Each cluster counts on its own.
    match db.record_image(&h1, r2).unwrap() {
        PreviouslySeen::Yes { image, times_seen } => {
            assert_eq!(times_seen, 2);
            assert_eq!(image, r1);
        }
        _ => panic!("wrong seen variant"),
    }
}

#[test]
fn absorbed_hash_hits_the_first_cluster() {
    let mut db = Data::init("").unwrap();
    let h1 = ImageHash::from_bytes(&[16, 0, 0, 0, 0, 0, 0, 0]).unwrap();
    let h2 = ImageHash::from_bytes(&[16, 3, 0, 0, 0, 0, 0, 0]).unwrap();
    let first = SeenImage::new("first".to_string(), 10, 20, 30);
    assert_eq!(db.record_image(&h1, first.clone()).unwrap(), PreviouslySeen::No);

    // Two bits apart: within the threshold.
    match db
        .record_image(&h2, SeenImage::new("second".to_string(), 40, 50, 60))
        .unwrap()
    {
        PreviouslySeen::Yes { image, times_seen } => {
            assert_eq!(times_seen, 2);
            assert_eq!(image, first);
        }
        _ => panic!("wrong seen variant"),
    }

    // The first hash again: an exact hit on the same, single cluster.
    match db
        .record_image(&h1, SeenImage::new("third".to_string(), 70, 80, 90))
        .unwrap()
    {
        PreviouslySeen::Yes { image, times_seen } => {
            assert_eq!(times_seen, 3);
            assert_eq!(image, first);
        }
        _ => panic!("wrong seen variant"),
    }
    assert_eq!(db.total_seen(), 1);
}

#[test]
fn mark_ignored_then_duplicate_reports_ignored() {
    let mut db = Data::init("").unwrap();
    let hash = ImageHash::from_bytes(&[5, 5, 5, 5, 5, 5, 5, 5]).unwrap();
    let record = SeenImage::new("carol".to_string(), 123, 456, 789);
    assert_eq!(db.record_image(&hash, record).unwrap(), PreviouslySeen::No);

    let known = db.mark_ignored(hash.as_bytes()).unwrap();
    assert!(known);

    match db
        .record_image(&hash, SeenImage::new("dave".to_string(), 321, 654, 987))
        .unwrap()
    {
        PreviouslySeen::Yes { image, times_seen } => {
            assert!(image.ignored);
            assert_eq!(image.author, "carol".to_string());
            assert_eq!(times_seen, 2);
        }
        _ => panic!("wrong seen variant"),
    }
}

#[test]
fn mutating_unknown_hash_is_a_quiet_no_op() {
    let mut db = Data::init("").unwrap();
    let known = db.mark_ignored(&[1, 2, 3, 4, 5, 6, 7, 8]).unwrap();
    assert!(!known);
    let touched = db
        .access_image(&[8, 7, 6, 5, 4, 3, 2, 1], |view| (view, true))
        .unwrap();
    assert!(!touched);
    assert_eq!(db.total_seen(), 0);
}

#[test]
fn access_image_mutates_in_place() {
    let mut db = Data::init("").unwrap();
    let hash = ImageHash::from_bytes(&[9, 8, 7, 6, 5, 4, 3, 2]).unwrap();
    let record = SeenImage::new("erin".to_string(), 1, 2, 3);
    db.record_image(&hash, record).unwrap();

    let found = db
        .access_image(hash.as_bytes(), |view| {
            let mut view = view;
            assert!(!view.ignored());
            view.set_ignored(true);
            (view, true)
        })
        .unwrap();
    assert!(found);

    let found_again = db
        .access_image(hash.as_bytes(), |view| {
            assert!(view.ignored());
            assert_eq!(view.author(), "erin".to_string());
            assert_eq!(view.sent(), 1);
            assert_eq!(view.original_message_id(), 2);
            assert_eq!(view.channel_id(), 3);
            (view, false)
        })
        .unwrap();
    assert!(found_again);
}

#[test]
fn total_seen_counts_clusters_not_hits() {
    let mut db = Data::init("").unwrap();
    assert_eq!(db.total_seen(), 0);
    let h1 = ImageHash::from_bytes(&[0, 0, 0, 0, 0, 0, 0, 1]).unwrap();
    let h2 = ImageHash::from_bytes(&[255, 255, 0, 0, 0, 0, 0, 1]).unwrap();
    db.record_image(&h1, SeenImage::new("x".to_string(), 1, 1, 1)).unwrap();
    db.record_image(&h1, SeenImage::new("x".to_string(), 1, 1, 1)).unwrap();
    assert_eq!(db.total_seen(), 1);
    db.record_image(&h2, SeenImage::new("y".to_string(), 2, 2, 2)).unwrap();
    assert_eq!(db.total_seen(), 2);
}

#[test]
fn overlong_version_value_is_corruption() {
    let test_path = "/tmp/repost_store_overlong_version_test";
    {
        let db = sled::Config::new().path(test_path).open().unwrap();
        let width = core::mem::size_of::<usize>().to_ne_bytes();
        db.insert("usize", &width[..]).unwrap();
        // The engine writes exactly one version byte; anything longer is
        // not its own writing.
        db.insert("version", &[1, 0][..]).unwrap();
    }
    assert!(matches!(Data::init(test_path), Err(DatabaseError::Corrupted)));
}
