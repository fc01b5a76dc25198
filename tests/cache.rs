use face_threshold::cache::{most_centered_face, CacheSource, Error, Nose, Recognition};

#[test]
fn missing_store_gives_empty_cache() {
    let c = Recognition::new(Some("does/not/exist.json".to_string()), CacheSource::Missing).unwrap();
    assert!(c.entries().is_empty());
    assert_eq!(c.cache_path(), &Some("does/not/exist.json".to_string()));
    assert!(c.get(&"a.jpg".to_string()).is_none());
}

#[test]
fn malformed_store_is_an_error() {
    let r = Recognition::new(Some("c.json".to_string()), CacheSource::Malformed("expected value".to_string()));
    assert_eq!(r.err(), Some(Error::DeserializeError("expected value".to_string())));
}

#[test]
fn parsed_store_later_entry_wins() {
    let entries = vec![
        ("a".to_string(), vec![1, 2]),
        ("b".to_string(), vec![3]),
        ("a".to_string(), vec![9]),
    ];
    let c = Recognition::new(None, CacheSource::Parsed(entries)).unwrap();
    assert_eq!(c.get(&"a".to_string()), Some(&vec![9]));
    assert_eq!(c.get(&"b".to_string()), Some(&vec![3]));
    assert_eq!(c.entries().len(), 2);
}

#[test]
fn cache_round_trip_through_entries() {
    let mut c = Recognition::empty(Some("cache.json".to_string()));
    let persist = c.add("img/x.jpg".to_string(), vec![5, -7, 11]);
    assert_eq!(persist, Some("cache.json".to_string()));
    let written = c.entries().clone();
    let reloaded = Recognition::new(Some("cache.json".to_string()), CacheSource::Parsed(written)).unwrap();
    assert_eq!(reloaded.get(&"img/x.jpg".to_string()), Some(&vec![5, -7, 11]));
}

#[test]
fn ensure_twice_stores_once() {
    let mut c = Recognition::empty(None);
    let id = "p/1.jpg".to_string();
    let mut pipeline_runs = 0;
    for _ in 0..2 {
        if c.needs_embedding(&id) {
            pipeline_runs += 1;
            assert_eq!(c.add(id.clone(), vec![1, 2, 3]), None);
        }
    }
    assert_eq!(pipeline_runs, 1);
    assert_eq!(c.entries().len(), 1);
    assert!(c.contains(&id));
}

#[test]
fn add_replaces_existing_embedding() {
    let mut c = Recognition::empty(None);
    c.add("k".to_string(), vec![1]);
    c.add("k".to_string(), vec![2]);
    assert_eq!(c.entries().len(), 1);
    assert_eq!(c.get(&"k".to_string()), Some(&vec![2]));
}

#[test]
fn most_centered_face_by_manhattan_distance() {
    let center = Nose { x: 125, y: 125 };
    assert_eq!(most_centered_face(&vec![], center), None);
    let noses = vec![Nose { x: 100, y: 100 }, Nose { x: 130, y: 120 }, Nose { x: 120, y: 130 }];
    assert_eq!(most_centered_face(&noses, center), Some(1));
    let far = vec![Nose { x: i64::MIN, y: i64::MAX }, Nose { x: i64::MAX, y: i64::MIN }];
    assert_eq!(most_centered_face(&far, Nose { x: 0, y: 0 }), Some(0));
    let tie = vec![Nose { x: 120, y: 125 }, Nose { x: 125, y: 130 }, Nose { x: 126, y: 125 }];
    assert_eq!(most_centered_face(&tie, center), Some(2));
}

#[test]
fn default_cache_path_names_dataset() {
    assert_eq!(Recognition::default_cache_path(&"lfw".to_string()), "data/cache-lfw-250x250.json");
}
