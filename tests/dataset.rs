use face_threshold::cache::{CacheSource, Recognition};
use face_threshold::dataset::{Cplfw, Dataset, Lfw, Pair};

fn fields(v: &[&str]) -> Vec<String> {
    v.iter().map(|s| s.to_string()).collect()
}

#[test]
fn lfw_pair_of_same_person() {
    let p = Pair::new(fields(&["Aaron_Eckhart", "1", "12"]), "data/lfw".to_string());
    assert!(p.same_person());
    assert_eq!(p.get_path1(), "data/lfw/Aaron_Eckhart/Aaron_Eckhart_0001.jpg");
    assert_eq!(p.get_path2(), "data/lfw/Aaron_Eckhart/Aaron_Eckhart_0012.jpg");
}

#[test]
fn lfw_pair_of_different_people() {
    let p = Pair::new(fields(&["Abel_Pacheco", "1", "Jean_Brumley", "12345"]), "b".to_string());
    assert!(!p.same_person());
    assert_eq!(p.get_path1(), "b/Abel_Pacheco/Abel_Pacheco_0001.jpg");
    assert_eq!(p.get_path2(), "b/Jean_Brumley/Jean_Brumley_12345.jpg");
}

#[test]
fn padding_counts_characters() {
    let p = Pair::new(fields(&["X", "é", "0042"]), "b".to_string());
    assert_eq!(p.get_path1(), "b/X/X_000é.jpg");
    assert_eq!(p.get_path2(), "b/X/X_0042.jpg");
}

#[test]
fn lfw_images_and_cached_samples() {
    let lfw = Lfw {
        pairs: vec![
            Pair::new(fields(&["A", "1", "2"]), "d".to_string()),
            Pair::new(fields(&["A", "1", "B", "1"]), "d".to_string()),
        ],
    };
    assert_eq!(
        lfw.images(),
        fields(&["d/A/A_0001.jpg", "d/A/A_0002.jpg", "d/A/A_0001.jpg", "d/B/B_0001.jpg"])
    );
    let entries = vec![("d/A/A_0001.jpg".to_string(), vec![1]), ("d/A/A_0002.jpg".to_string(), vec![2])];
    let rec = Recognition::new(None, CacheSource::Parsed(entries)).unwrap();
    let samples = lfw.embeddings(&rec);
    assert_eq!(samples.len(), 1);
    assert!(samples[0].same_person);
    assert_eq!((samples[0].emb1.clone(), samples[0].emb2.clone()), (vec![1], vec![2]));
}

#[test]
fn cplfw_lines_pair_up() {
    let lines = fields(&["a_1.jpg 1", "a_2.jpg 1", "b_1.jpg 0", "c_1.jpg 0", "dangling.jpg 1"]);
    let c = Cplfw::new(lines, "root".to_string()).unwrap();
    assert_eq!(
        c.pair,
        vec![
            (true, "root/a_1.jpg".to_string(), "root/a_2.jpg".to_string()),
            (false, "root/b_1.jpg".to_string(), "root/c_1.jpg".to_string()),
        ]
    );
    assert_eq!(c.images(), fields(&["root/a_1.jpg", "root/a_2.jpg", "root/b_1.jpg", "root/c_1.jpg"]));
}

#[test]
fn cplfw_first_line_without_label_is_rejected() {
    assert!(Cplfw::new(fields(&["a_1.jpg", "a_2.jpg 1"]), "r".to_string()).is_err());
    assert_eq!(Cplfw::new(vec![], "r".to_string()).unwrap().pair, vec![]);
}

#[test]
fn dataset_names_and_uncached_pairs() {
    let c = Dataset::Cplfw(Cplfw { pair: vec![(true, "x".to_string(), "y".to_string())] });
    assert_eq!(c.name(), "cplfw");
    assert_eq!(Dataset::Lfw(Lfw { pairs: vec![] }).name(), "lfw");
    let rec = Recognition::empty(None);
    assert!(c.embeddings(&rec).is_empty());
    assert_eq!(c.images(), fields(&["x", "y"]));
}
