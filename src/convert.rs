//! Planning the conversion of downloaded videos: which videos are known,
//! whether each is 3D, and the transcoder's arguments.
use vstd::prelude::*;
use vstd::string::*;
use crate::frontier::{ids_view, strictly_sorted, Frontier};
use crate::text::{same_text, starts_with, strip_prefix};
use crate::urls::{movie_filename, movie_url_to_filename};

verus! {

/// Why the videos could not be planned.
#[derive(Clone, Copy, PartialEq, Eq, Structural, Debug)]
pub enum ConvertError {
    /// A movie document gives a dimension other than "2d" or "3d".
    UnknownDimension,
    /// A video is referenced both as 2D and as 3D.
    BothDimensions,
    /// A requested file is not below `kanzashi-movie/`.
    NotAVideoPath,
    /// No known video has the requested file name.
    NotFound,
}

/// The videos referenced by the documents read so far, by dimension.
pub struct VideoCatalog {
    flat: Frontier,
    stereo: Frontier,
}

impl VideoCatalog {
    pub closed spec fn inv(&self) -> bool {
        self.flat.inv() && self.stereo.inv()
    }

    /// The addresses of 2D videos.
    pub closed spec fn flat_set(&self) -> Set<Seq<char>> {
        self.flat@.to_set()
    }

    /// The addresses of 3D videos.
    pub closed spec fn stereo_set(&self) -> Set<Seq<char>> {
        self.stereo@.to_set()
    }

    pub fn new() -> (r: VideoCatalog)
        ensures
            r.inv(),
            r.flat_set() == Set::<Seq<char>>::empty(),
            r.stereo_set() == Set::<Seq<char>>::empty(),
    {
        let r = VideoCatalog { flat: Frontier::new(), stereo: Frontier::new() };
        assert(Seq::<Seq<char>>::empty().to_set() =~= Set::<Seq<char>>::empty());
        r
    }

    /// Adds a video file listed inside a title: "3d" marks 3D, anything
    /// else 2D.
    pub fn add_title_file(&mut self, url: &str, dimension: &str)
        requires
            old(self).inv(),
        ensures
            final(self).inv(),
            dimension@ == "3d"@ ==> final(self).stereo_set() == old(self).stereo_set().insert(url@)
                && final(self).flat_set() == old(self).flat_set(),
            dimension@ != "3d"@ ==> final(self).flat_set() == old(self).flat_set().insert(url@)
                && final(self).stereo_set() == old(self).stereo_set(),
    {
        if same_text(dimension, "3d") {
            self.stereo.add(url);
        } else {
            self.flat.add(url);
        }
    }

    /// Adds a video file listed in a movie document, whose dimension must
    /// be "2d" or "3d".
    pub fn add_movie_file(&mut self, url: &str, dimension: &str) -> (r: Result<(), ConvertError>)
        requires
            old(self).inv(),
        ensures
            final(self).inv(),
            dimension@ == "3d"@ ==> r is Ok && final(self).stereo_set() == old(
                self,
            ).stereo_set().insert(url@) && final(self).flat_set() == old(self).flat_set(),
            dimension@ == "2d"@ ==> r is Ok && final(self).flat_set() == old(
                self,
            ).flat_set().insert(url@) && final(self).stereo_set() == old(self).stereo_set(),
            dimension@ != "3d"@ && dimension@ != "2d"@ ==> r == Err::<(), ConvertError>(
                ConvertError::UnknownDimension,
            ) && final(self).flat_set() == old(self).flat_set() && final(self).stereo_set() == old(
                self,
            ).stereo_set(),
    {
        proof {
            reveal_strlit("2d");
            reveal_strlit("3d");
            assert("2d"@ != "3d"@) by {
                assert("2d"@[0] != "3d"@[0]);
            }
        }
        if same_text(dimension, "3d") {
            self.stereo.add(url);
            Ok(())
        } else if same_text(dimension, "2d") {
            self.flat.add(url);
            Ok(())
        } else {
            Err(ConvertError::UnknownDimension)
        }
    }

    /// Whether a video is known as 3D.
    pub fn is_3d(&self, url: &str) -> (r: bool)
        ensures
            r == self.stereo_set().contains(url@),
    {
        self.stereo.contains(url)
    }

    /// Every known video, in ascending code-point order, once each; refused where a video is
    /// known in both dimensions.
    pub fn all_videos(&self) -> (r: Result<Vec<String>, ConvertError>)
        requires
            self.inv(),
        ensures
            match r {
                Ok(v) => self.flat_set().disjoint(self.stereo_set()) && ids_view(v@).to_set()
                    == self.flat_set() + self.stereo_set() && ids_view(v@).no_duplicates()
                    && strictly_sorted(ids_view(v@)),
                Err(e) => e == ConvertError::BothDimensions && !self.flat_set().disjoint(
                    self.stereo_set(),
                ),
            },
    {
        let mut i: usize = 0;
        while i < self.flat.len()
            invariant
                0 <= i <= self.flat@.len(),
                forall|j: int| 0 <= j < i ==> !self.stereo@.contains(#[trigger] self.flat@[j]),
            decreases self.flat@.len() - i,
        {
            if self.stereo.contains(self.flat.get(i).as_str()) {
                proof {
                    assert(self.flat@.to_set().contains(self.flat@[i as int]));
                    assert(self.stereo@.to_set().contains(self.flat@[i as int]));
                }
                return Err(ConvertError::BothDimensions);
            }
            i = i + 1;
        }
        proof {
            assert forall|x: Seq<char>| self.flat_set().contains(x) implies !self.stereo_set().contains(x) by {
                let j = choose|j: int| 0 <= j < self.flat@.len() && self.flat@[j] == x;
            }
        }
        let mut all = Frontier::new();
        let mut k: usize = 0;
        while k < self.flat.len()
            invariant
                0 <= k <= self.flat@.len(),
                all.inv(),
                all@.to_set() == self.flat@.take(k as int).to_set(),
            decreases self.flat@.len() - k,
        {
            all.add(self.flat.get(k).as_str());
            proof {
                assert(self.flat@.take(k + 1) =~= self.flat@.take(k as int).push(self.flat@[k as int]));
                Seq::lemma_to_set_insert_commutes(self.flat@.take(k as int), self.flat@[k as int]);
                assert(self.flat@.take(k as int).push(self.flat@[k as int]) =~= self.flat@.take(k as int) + seq![self.flat@[k as int]]);
            }
            k = k + 1;
        }
        let mut k: usize = 0;
        proof {
            assert(self.flat@.take(self.flat@.len() as int) =~= self.flat@);
        }
        while k < self.stereo.len()
            invariant
                0 <= k <= self.stereo@.len(),
                all.inv(),
                all@.to_set() == self.flat@.to_set() + self.stereo@.take(k as int).to_set(),
            decreases self.stereo@.len() - k,
        {
            all.add(self.stereo.get(k).as_str());
            proof {
                assert(self.stereo@.take(k + 1) =~= self.stereo@.take(k as int).push(self.stereo@[k as int]));
                Seq::lemma_to_set_insert_commutes(self.stereo@.take(k as int), self.stereo@[k as int]);
                assert(self.stereo@.take(k as int).push(self.stereo@[k as int]) =~= self.stereo@.take(k as int) + seq![self.stereo@[k as int]]);
                assert(all@.to_set() =~= self.flat@.to_set() + self.stereo@.take(k + 1).to_set());
            }
            k = k + 1;
        }
        proof {
            assert(self.stereo@.take(self.stereo@.len() as int) =~= self.stereo@);
        }
        all.sort();
        let mut out: Vec<String> = Vec::new();
        let mut m: usize = 0;
        while m < all.len()
            invariant
                0 <= m <= all@.len(),
                ids_view(out@) == all@.take(m as int),
            decreases all@.len() - m,
        {
            let ghost before = out@;
            let c = all.get(m).clone();
            out.push(c);
            proof {
                assert(ids_view(out@) =~= ids_view(before).push(c@));
                assert(all@.take(m + 1) =~= all@.take(m as int).push(all@[m as int]));
            }
            m = m + 1;
        }
        proof {
            assert(all@.take(m as int) =~= all@);
        }
        Ok(out)
    }
}

/// Picks, among known videos, the one stored under a local file name.
pub fn select_video(videos: &Vec<String>, filename: &str) -> (r: Result<usize, ConvertError>)
    ensures
        !starts_with(filename@, "kanzashi-movie/"@) ==> r == Err::<usize, ConvertError>(
            ConvertError::NotAVideoPath,
        ),
        match r {
            Ok(i) => i < videos@.len() && movie_filename(videos@[i as int]@) == Some(filename@),
            Err(e) => e == ConvertError::NotAVideoPath && !starts_with(filename@, "kanzashi-movie/"@)
                || e == ConvertError::NotFound && forall|j: int|
                0 <= j < videos@.len() ==> movie_filename(videos@[j]@) != Some(filename@),
        },
{
    match strip_prefix(filename, "kanzashi-movie/") {
        None => {
            return Err(ConvertError::NotAVideoPath);
        },
        Some(rest) => {
            proof {
                assert(filename@.subrange(0, "kanzashi-movie/"@.len() as int) =~= "kanzashi-movie/"@);
            }
        },
    }
    let mut i: usize = 0;
    while i < videos.len()
        invariant
            0 <= i <= videos@.len(),
            starts_with(filename@, "kanzashi-movie/"@),
            forall|j: int| 0 <= j < i ==> movie_filename(videos@[j]@) != Some(filename@),
        decreases videos@.len() - i,
    {
        match movie_url_to_filename(videos[i].as_str()) {
            Some(f) => {
                if same_text(f.as_str(), filename) {
                    return Ok(i);
                }
            },
            None => {},
        }
        i = i + 1;
    }
    Err(ConvertError::NotFound)
}

/// The transcoder's arguments: overwrite, the input, the filter that turns
/// frame-alternating 3D into side-by-side 3D where needed, the output.
pub open spec fn transcode_args(input: Seq<char>, output: Seq<char>, stereo: bool) -> Seq<Seq<char>> {
    seq!["-y"@, "-i"@, input] + (if stereo {
        seq!["-vf"@, "stereo3d=al:sbsl"@]
    } else {
        seq![]
    }) + seq![output]
}

pub fn transcoder_args(input: &str, output: &str, stereo: bool) -> (r: Vec<String>)
    ensures
        ids_view(r@) == transcode_args(input@, output@, stereo),
{
    let mut v: Vec<String> = Vec::new();
    v.push(String::from_str("-y"));
    v.push(String::from_str("-i"));
    v.push(String::from_str(input));
    if stereo {
        v.push(String::from_str("-vf"));
        v.push(String::from_str("stereo3d=al:sbsl"));
    }
    v.push(String::from_str(output));
    proof {
        assert(ids_view(v@) =~= transcode_args(input@, output@, stereo));
    }
    v
}

} // verus!
