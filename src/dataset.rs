use vstd::prelude::*;
use vstd::string::StringExecFns;

use crate::cache::Recognition;
use crate::samples::PairSample;

verus! {

/// `s` left-padded with '0' to at least four characters.
pub open spec fn pad4(s: Seq<char>) -> Seq<char> {
    if s.len() < 4 {
        Seq::new((4 - s.len()) as nat, |i: int| '0') + s
    } else {
        s
    }
}

/// The image file `<base>/<name>/<name>_<nr padded to 4>.jpg`.
pub open spec fn image_path(base: Seq<char>, name: Seq<char>, nr: Seq<char>) -> Seq<char> {
    base + seq!['/'] + name + seq!['/'] + name + seq!['_'] + pad4(nr) + seq!['.', 'j', 'p', 'g']
}

/// Relies on str::chars and Iterator::count: the number of characters.
#[verifier::external_body]
fn char_count(s: &str) -> (r: usize)
    ensures
        r == s@.len(),
{
    s.chars().count()
}

/// `s` left-padded with '0' to at least four characters.
fn padded4(s: &String) -> (r: String)
    ensures
        r@ == pad4(s@),
{
    proof {
        reveal_strlit("0");
    }
    let n = char_count(s.as_str());
    let mut r = String::new();
    let mut k: usize = n;
    while k < 4
        invariant
            n == s@.len(),
            n <= k <= 4 || (n > 4 && k == n),
            r@ == Seq::new((k - n) as nat, |i: int| '0'),
        decreases 4 - k,
    {
        proof {
            reveal_strlit("0");
        }
        r.append("0");
        k = k + 1;
        assert(r@ =~= Seq::new((k - n) as nat, |i: int| '0'));
    }
    r.append(s.as_str());
    assert(r@ =~= pad4(s@));
    r
}

/// The image file `<base>/<name>/<name>_<nr padded to 4>.jpg`.
fn build_image_path(base: &String, name: &String, nr: &String) -> (r: String)
    ensures
        r@ == image_path(base@, name@, nr@),
{
    proof {
        reveal_strlit("/");
        reveal_strlit("_");
        reveal_strlit(".jpg");
    }
    let mut r = base.clone();
    r.append("/");
    r.append(name.as_str());
    r.append("/");
    r.append(name.as_str());
    r.append("_");
    let p = padded4(nr);
    r.append(p.as_str());
    r.append(".jpg");
    r
}

/// A pair of LFW validation images. Without `name2`, image `nr2` shows the
/// same person as image `nr`.
#[derive(Clone, Debug)]
pub struct Pair {
    pub name: String,
    pub nr: String,
    pub name2: Option<String>,
    pub nr2: String,
    /// Folder of the dataset (the one that holds a folder per person).
    pub basepath: String,
}

impl Pair {
    /// A pair from the fields of one line of the pairs file: three fields
    /// (`name nr nr2`) for the same person, otherwise `name nr name2 nr2`.
    pub fn new(s: Vec<String>, basepath: String) -> (r: Pair)
        requires
            s@.len() >= 3,
        ensures
            r.name == s@[0],
            r.nr == s@[1],
            s@.len() == 3 ==> r.name2 is None && r.nr2 == s@[2],
            s@.len() > 3 ==> r.name2 == Some(s@[2]) && r.nr2 == s@[3],
            r.basepath == basepath,
    {
        if s.len() == 3 {
            Pair { name: s[0].clone(), nr: s[1].clone(), name2: None, nr2: s[2].clone(), basepath }
        } else {
            Pair { name: s[0].clone(), nr: s[1].clone(), name2: Some(s[2].clone()), nr2: s[3].clone(), basepath }
        }
    }

    /// Both images show the same person.
    pub open spec fn spec_same_person(&self) -> bool {
        self.name2 is None
    }

    /// Path of the first image.
    pub open spec fn spec_path1(&self) -> Seq<char> {
        image_path(self.basepath@, self.name@, self.nr@)
    }

    /// Path of the second image.
    pub open spec fn spec_path2(&self) -> Seq<char> {
        match self.name2 {
            Some(n2) => image_path(self.basepath@, n2@, self.nr2@),
            None => image_path(self.basepath@, self.name@, self.nr2@),
        }
    }

    /// Whether both images show the same person.
    pub fn same_person(&self) -> (r: bool)
        ensures
            r == self.spec_same_person(),
    {
        self.name2.is_none()
    }

    /// Path of the first image.
    pub fn get_path1(&self) -> (r: String)
        ensures
            r@ == self.spec_path1(),
    {
        build_image_path(&self.basepath, &self.name, &self.nr)
    }

    /// Path of the second image.
    pub fn get_path2(&self) -> (r: String)
        ensures
            r@ == self.spec_path2(),
    {
        match &self.name2 {
            Some(name2) => build_image_path(&self.basepath, name2, &self.nr2),
            None => build_image_path(&self.basepath, &self.name, &self.nr2),
        }
    }
}

/// A labelled pair of image identifiers: same person, first, second.
pub type ImagePair = (bool, String, String);

/// The plain values of labelled image pairs.
pub open spec fn pairs_view(p: Seq<ImagePair>) -> Seq<(bool, Seq<char>, Seq<char>)> {
    Seq::new(p.len(), |i: int| (p[i].0, p[i].1@, p[i].2@))
}

/// The plain values of samples.
pub open spec fn samples_view(s: Seq<PairSample>) -> Seq<(bool, Seq<i32>, Seq<i32>)> {
    Seq::new(s.len(), |i: int| (s[i].same_person, s[i].emb1@, s[i].emb2@))
}

/// The samples of the pairs whose two images are both cached, in order;
/// the other pairs are left out.
pub open spec fn cached_samples(
    p: Seq<(bool, Seq<char>, Seq<char>)>,
    m: Map<Seq<char>, Seq<i32>>,
) -> Seq<(bool, Seq<i32>, Seq<i32>)>
    decreases p.len(),
{
    if p.len() == 0 {
        Seq::empty()
    } else {
        let (same, a, b) = p.last();
        let rest = cached_samples(p.drop_last(), m);
        if m.contains_key(a) && m.contains_key(b) {
            rest.push((same, m[a], m[b]))
        } else {
            rest
        }
    }
}

/// The samples of the pairs whose two images are both cached.
pub fn collect_samples(pairs: &Vec<ImagePair>, rec: &Recognition) -> (r: Vec<PairSample>)
    requires
        rec.wf(),
    ensures
        samples_view(r@) == cached_samples(pairs_view(pairs@), rec@),
{
    let mut r: Vec<PairSample> = Vec::new();
    let mut i: usize = 0;
    while i < pairs.len()
        invariant
            rec.wf(),
            i <= pairs@.len(),
            samples_view(r@) == cached_samples(pairs_view(pairs@.subrange(0, i as int)), rec@),
        decreases pairs@.len() - i,
    {
        let ghost before = r@;
        assert(pairs_view(pairs@.subrange(0, i as int + 1)).drop_last() =~= pairs_view(pairs@.subrange(0, i as int)));
        let (same, a, b) = (&pairs[i].0, &pairs[i].1, &pairs[i].2);
        match rec.get(a) {
            Some(e1) => match rec.get(b) {
                Some(e2) => {
                    let emb1 = e1.clone();
                    let emb2 = e2.clone();
                    assert(emb1@ =~= e1@);
                    assert(emb2@ =~= e2@);
                    r.push(PairSample { same_person: *same, emb1, emb2 });
                    assert(samples_view(r@) =~= samples_view(before).push((*same, e1@, e2@)));
                },
                None => {},
            },
            None => {},
        }
        i = i + 1;
    }
    assert(pairs@.subrange(0, pairs@.len() as int) =~= pairs@);
    r
}

/// The labelled LFW pairs.
#[derive(Clone, Debug)]
pub struct Lfw {
    pub pairs: Vec<Pair>,
}

/// The labelled image paths of LFW pairs.
pub open spec fn lfw_pairs(p: Seq<Pair>) -> Seq<(bool, Seq<char>, Seq<char>)> {
    Seq::new(p.len(), |i: int| (p[i].spec_same_person(), p[i].spec_path1(), p[i].spec_path2()))
}

impl Lfw {
    /// The labelled image paths of the pairs, in order.
    pub fn image_pairs(&self) -> (r: Vec<ImagePair>)
        ensures
            pairs_view(r@) == lfw_pairs(self.pairs@),
    {
        let mut r: Vec<ImagePair> = Vec::new();
        let mut i: usize = 0;
        while i < self.pairs.len()
            invariant
                i <= self.pairs@.len(),
                r@.len() == i,
                forall|j: int| 0 <= j < i ==> (#[trigger] r@[j]).0 == self.pairs@[j].spec_same_person()
                    && r@[j].1@ == self.pairs@[j].spec_path1() && r@[j].2@ == self.pairs@[j].spec_path2(),
            decreases self.pairs@.len() - i,
        {
            let p = &self.pairs[i];
            r.push((p.same_person(), p.get_path1(), p.get_path2()));
            i = i + 1;
        }
        assert(pairs_view(r@) =~= lfw_pairs(self.pairs@));
        r
    }

    /// The samples of the pairs whose images are both cached.
    pub fn embeddings(&self, rec: &Recognition) -> (r: Vec<PairSample>)
        requires
            rec.wf(),
        ensures
            samples_view(r@) == cached_samples(lfw_pairs(self.pairs@), rec@),
    {
        let p = self.image_pairs();
        collect_samples(&p, rec)
    }

    /// The images to cache: both paths of every pair, in order.
    pub fn images(&self) -> (r: Vec<String>)
        ensures
            r@.len() == 2 * self.pairs@.len(),
            forall|i: int| 0 <= i < self.pairs@.len() ==> (#[trigger] r@[2 * i])@ == self.pairs@[i].spec_path1()
                && r@[2 * i + 1]@ == self.pairs@[i].spec_path2(),
    {
        let mut r: Vec<String> = Vec::new();
        let mut i: usize = 0;
        while i < self.pairs.len()
            invariant
                i <= self.pairs@.len(),
                r@.len() == 2 * i,
                forall|j: int| 0 <= j < i ==> (#[trigger] r@[2 * j])@ == self.pairs@[j].spec_path1()
                    && r@[2 * j + 1]@ == self.pairs@[j].spec_path2(),
            decreases self.pairs@.len() - i,
        {
            let ghost before = r@;
            let p = &self.pairs[i];
            r.push(p.get_path1());
            r.push(p.get_path2());
            assert forall|j: int| 0 <= j < i + 1 implies (#[trigger] r@[2 * j])@ == self.pairs@[j].spec_path1()
                && r@[2 * j + 1]@ == self.pairs@[j].spec_path2() by {
                if j < i {
                    assert(r@[2 * j] == before[2 * j] && r@[2 * j + 1] == before[2 * j + 1]);
                }
            }
            i = i + 1;
        }
        r
    }
}

/// The labelled CPLFW pairs: same person, first path, second path.
#[derive(Clone, Debug)]
pub struct Cplfw {
    pub pair: Vec<ImagePair>,
}

impl Cplfw {
    /// The samples of the pairs whose images are both cached.
    pub fn embeddings(&self, rec: &Recognition) -> (r: Vec<PairSample>)
        requires
            rec.wf(),
        ensures
            samples_view(r@) == cached_samples(pairs_view(self.pair@), rec@),
    {
        collect_samples(&self.pair, rec)
    }

    /// The images to cache: both paths of every pair, in order.
    pub fn images(&self) -> (r: Vec<String>)
        ensures
            r@.len() == 2 * self.pair@.len(),
            forall|i: int| 0 <= i < self.pair@.len() ==> (#[trigger] r@[2 * i]) == self.pair@[i].1
                && r@[2 * i + 1] == self.pair@[i].2,
    {
        let mut r: Vec<String> = Vec::new();
        let mut i: usize = 0;
        while i < self.pair.len()
            invariant
                i <= self.pair@.len(),
                r@.len() == 2 * i,
                forall|j: int| 0 <= j < i ==> (#[trigger] r@[2 * j]) == self.pair@[j].1
                    && r@[2 * j + 1] == self.pair@[j].2,
            decreases self.pair@.len() - i,
        {
            let ghost before = r@;
            r.push(self.pair[i].1.clone());
            r.push(self.pair[i].2.clone());
            assert forall|j: int| 0 <= j < i + 1 implies (#[trigger] r@[2 * j]) == self.pair@[j].1
                && r@[2 * j + 1] == self.pair@[j].2 by {
                if j < i {
                    assert(r@[2 * j] == before[2 * j] && r@[2 * j + 1] == before[2 * j + 1]);
                }
            }
            i = i + 1;
        }
        r
    }
}

/// The pieces of `s` between single spaces, as `str::split(' ')` yields
/// them: empty pieces included, and always at least one.
pub open spec fn split_spaces(s: Seq<char>) -> Seq<Seq<char>>
    decreases s.len(),
{
    if s.len() == 0 {
        seq![Seq::<char>::empty()]
    } else {
        let rest = split_spaces(s.drop_first());
        if s[0] == ' ' {
            seq![Seq::<char>::empty()] + rest
        } else {
            rest.update(0, seq![s[0]] + rest[0])
        }
    }
}

/// Splitting always yields at least one piece.
proof fn lemma_split_spaces_nonempty(s: Seq<char>)
    ensures
        split_spaces(s).len() >= 1,
    decreases s.len(),
{
    if s.len() > 0 {
        lemma_split_spaces_nonempty(s.drop_first());
    }
}

/// Relies on str::split with a `char` pattern: the pieces between the
/// separators, in order.
#[verifier::external_body]
fn split_space(s: &String) -> (r: Vec<String>)
    ensures
        r@.len() == split_spaces(s@).len(),
        forall|i: int| 0 <= i < r@.len() ==> (#[trigger] r@[i])@ == split_spaces(s@)[i],
{
    s.split(' ').map(|p| p.to_string()).collect()
}

/// `<base>/<name>`.
pub open spec fn join_path(base: Seq<char>, name: Seq<char>) -> Seq<char> {
    base + seq!['/'] + name
}

/// `<base>/<name>`.
fn build_join_path(base: &String, name: &String) -> (r: String)
    ensures
        r@ == join_path(base@, name@),
{
    proof {
        reveal_strlit("/");
    }
    let mut r = base.clone();
    r.append("/");
    r.append(name.as_str());
    r
}

/// The pairs that the lines of a CPLFW pairs file describe, two lines per
/// pair: the first line is `<image> <label>` with label `1` for the same
/// person, the second starts with `<image>`. A last line without a partner
/// is ignored; `None` when a first line has no label.
pub open spec fn cplfw_parse(lines: Seq<Seq<char>>, base: Seq<char>) -> Option<Seq<(bool, Seq<char>, Seq<char>)>>
    decreases lines.len(),
{
    if lines.len() == 0 {
        Some(Seq::empty())
    } else {
        let p = split_spaces(lines[0]);
        if p.len() < 2 {
            None
        } else if lines.len() == 1 {
            Some(Seq::empty())
        } else {
            let q = split_spaces(lines[1]);
            match cplfw_parse(lines.subrange(2, lines.len() as int), base) {
                Some(rest) => Some(
                    seq![(p[1] == seq!['1'], join_path(base, p[0]), join_path(base, q[0]))] + rest,
                ),
                None => None,
            }
        }
    }
}

/// The plain values of strings.
pub open spec fn strings_view(v: Seq<String>) -> Seq<Seq<char>> {
    Seq::new(v.len(), |i: int| v[i]@)
}

impl Cplfw {
    /// The pairs described by the first fields of the lines of a CPLFW pairs
    /// file, with paths under `basepath`.
    pub fn new(lines: Vec<String>, basepath: String) -> (r: Result<Cplfw, ()>)
        ensures
            cplfw_parse(strings_view(lines@), basepath@) is None <==> r is Err,
            r matches Ok(c) ==> cplfw_parse(strings_view(lines@), basepath@) == Some(pairs_view(c.pair@)),
    {
        let ghost all = strings_view(lines@);
        let one = String::from_str("1");
        proof {
            reveal_strlit("1");
        }
        let mut pairs: Vec<ImagePair> = Vec::new();
        let mut i: usize = 0;
        proof {
            assert(all.subrange(0, all.len() as int) =~= all);
            assert(pairs_view(pairs@) =~= Seq::<(bool, Seq<char>, Seq<char>)>::empty());
            match cplfw_parse(all, basepath@) {
                Some(rest) => {
                    assert(pairs_view(pairs@) + rest =~= rest);
                },
                None => {},
            }
        }
        while i < lines.len()
            invariant
                all == strings_view(lines@),
                one@ == seq!['1'],
                i <= lines@.len(),
                cplfw_parse(all, basepath@) == match cplfw_parse(all.subrange(i as int, all.len() as int), basepath@) {
                    Some(rest) => Some(pairs_view(pairs@) + rest),
                    None => None::<Seq<(bool, Seq<char>, Seq<char>)>>,
                },
            decreases lines@.len() - i,
        {
            let ghost tail = all.subrange(i as int, all.len() as int);
            assert(tail[0] == lines@[i as int]@);
            let p = split_space(&lines[i]);
            if p.len() < 2 {
                return Err(());
            }
            if i + 1 == lines.len() {
                assert(tail.len() == 1);
                assert(pairs_view(pairs@) + Seq::<(bool, Seq<char>, Seq<char>)>::empty() =~= pairs_view(pairs@));
                return Ok(Cplfw { pair: pairs });
            }
            assert(tail[1] == lines@[i + 1]@);
            proof {
                lemma_split_spaces_nonempty(lines@[i + 1]@);
            }
            let q = split_space(&lines[i + 1]);
            let same = p[1] == one;
            let a = build_join_path(&basepath, &p[0]);
            let b = build_join_path(&basepath, &q[0]);
            let ghost before = pairs_view(pairs@);
            pairs.push((same, a, b));
            proof {
                assert(tail.subrange(2, tail.len() as int) =~= all.subrange(i + 2, all.len() as int));
                assert(same == (split_spaces(tail[0])[1] == seq!['1']));
                assert(a@ == join_path(basepath@, split_spaces(tail[0])[0]));
                assert(b@ == join_path(basepath@, split_spaces(tail[1])[0]));
                assert(cplfw_parse(tail, basepath@) == match cplfw_parse(all.subrange(i + 2, all.len() as int), basepath@) {
                    Some(rest) => Some(seq![(same, a@, b@)] + rest),
                    None => None::<Seq<(bool, Seq<char>, Seq<char>)>>,
                });
                assert(pairs_view(pairs@) =~= before.push((same, a@, b@)));
                match cplfw_parse(all.subrange(i + 2, all.len() as int), basepath@) {
                    Some(rest) => {
                        assert(before + (seq![(same, a@, b@)] + rest) =~= pairs_view(pairs@) + rest);
                    },
                    None => {},
                }
            }
            i = i + 2;
        }
        assert(all.subrange(all.len() as int, all.len() as int) =~= Seq::<Seq<char>>::empty());
        assert(pairs_view(pairs@) + Seq::<(bool, Seq<char>, Seq<char>)>::empty() =~= pairs_view(pairs@));
        Ok(Cplfw { pair: pairs })
    }
}

/// The two datasets that pairs come from.
#[derive(Clone, Debug)]
pub enum Dataset {
    Lfw(Lfw),
    Cplfw(Cplfw),
}

impl Dataset {
    /// The labelled image paths of the dataset's pairs.
    pub open spec fn spec_pairs(&self) -> Seq<(bool, Seq<char>, Seq<char>)> {
        match self {
            Dataset::Lfw(l) => lfw_pairs(l.pairs@),
            Dataset::Cplfw(c) => pairs_view(c.pair@),
        }
    }

    /// The samples of the pairs whose images are both cached, in order.
    pub fn embeddings(&self, rec: &Recognition) -> (r: Vec<PairSample>)
        requires
            rec.wf(),
        ensures
            samples_view(r@) == cached_samples(self.spec_pairs(), rec@),
    {
        match self {
            Dataset::Lfw(l) => l.embeddings(rec),
            Dataset::Cplfw(c) => c.embeddings(rec),
        }
    }

    /// The images to cache: both paths of every pair, in order.
    pub fn images(&self) -> (r: Vec<String>)
        ensures
            r@.len() == 2 * self.spec_pairs().len(),
            forall|i: int| 0 <= i < self.spec_pairs().len() ==> (#[trigger] r@[2 * i])@ == self.spec_pairs()[i].1
                && r@[2 * i + 1]@ == self.spec_pairs()[i].2,
    {
        match self {
            Dataset::Lfw(l) => l.images(),
            Dataset::Cplfw(c) => c.images(),
        }
    }

    /// Short name of the dataset.
    pub fn name(&self) -> (r: String)
        ensures
            self is Lfw ==> r@ == seq!['l', 'f', 'w'],
            self is Cplfw ==> r@ == seq!['c', 'p', 'l', 'f', 'w'],
    {
        proof {
            reveal_strlit("lfw");
            reveal_strlit("cplfw");
        }
        match self {
            Dataset::Lfw(_) => String::from_str("lfw"),
            Dataset::Cplfw(_) => String::from_str("cplfw"),
        }
    }
}

} // verus!
