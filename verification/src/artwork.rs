//! The canonical shape of an artwork record with its nested image and
//! moderation sub-objects, the mathematical views of those types, and the
//! category membership predicate that the pre-filtered views are built on.
//!
//! String-valued fields are modelled by their UTF-8 bytes (see [`crate::text`]).
//! NSFW-probability scores, probabilities in the unit interval, are carried in
//! fixed-point form as parts per million, so that the record is a plain value
//! throughout.

use vstd::prelude::*;

use crate::text::{ci_eq, ci_eq_bytes, eq_bytes, lower, lower_byte, str_bytes, string_bytes};

verus! {

/// URL set of one rendition of an artwork image.
pub struct ArtworkImageUrl {
    pub thumb_mini: String,
    pub small: String,
    pub regular: String,
    pub original: String,
}

/// Mathematical view of [`ArtworkImageUrl`]: each URL as its UTF-8 bytes.
pub ghost struct ArtworkImageUrlView {
    pub thumb_mini: Seq<u8>,
    pub small: Seq<u8>,
    pub regular: Seq<u8>,
    pub original: Seq<u8>,
}

impl View for ArtworkImageUrl {
    type V = ArtworkImageUrlView;

    open spec fn view(&self) -> ArtworkImageUrlView {
        ArtworkImageUrlView {
            thumb_mini: str_bytes(self.thumb_mini@),
            small: str_bytes(self.small@),
            regular: str_bytes(self.regular@),
            original: str_bytes(self.original@),
        }
    }
}

impl Clone for ArtworkImageUrl {
    fn clone(&self) -> (r: Self)
        ensures
            r@ == self@,
    {
        ArtworkImageUrl {
            thumb_mini: self.thumb_mini.clone(),
            small: self.small.clone(),
            regular: self.regular.clone(),
            original: self.original.clone(),
        }
    }
}

/// NSFW-probability scores of one image, each a probability in `[0, 1]`
/// carried as parts per million.
#[derive(Clone, Copy)]
pub struct ArtworkImageNsfw {
    pub drawings: u32,
    pub hentai: u32,
    pub neutral: u32,
    pub porn: u32,
    pub sexy: u32,
}

/// Moderation outcome of a record.
pub struct ArtworkModerate {
    pub art_type: Option<String>,
    pub status: Option<String>,
    pub reason: Option<String>,
}

/// Mathematical view of [`ArtworkModerate`].
pub ghost struct ArtworkModerateView {
    pub art_type: Option<Seq<u8>>,
    pub status: Option<Seq<u8>>,
    pub reason: Option<Seq<u8>>,
}

/// The UTF-8 bytes of an optional string.
pub open spec fn opt_str_bytes(o: Option<String>) -> Option<Seq<u8>> {
    match o {
        Some(s) => Some(str_bytes(s@)),
        None => None,
    }
}

impl View for ArtworkModerate {
    type V = ArtworkModerateView;

    open spec fn view(&self) -> ArtworkModerateView {
        ArtworkModerateView {
            art_type: opt_str_bytes(self.art_type),
            status: opt_str_bytes(self.status),
            reason: opt_str_bytes(self.reason),
        }
    }
}

impl Clone for ArtworkModerate {
    fn clone(&self) -> (r: Self)
        ensures
            r@ == self@,
    {
        ArtworkModerate {
            art_type: clone_opt_string(&self.art_type),
            status: clone_opt_string(&self.status),
            reason: clone_opt_string(&self.reason),
        }
    }
}

/// One image of a record.
pub struct ArtworkImage {
    pub urls: Option<ArtworkImageUrl>,
    pub nsfw: Option<ArtworkImageNsfw>,
}

/// Mathematical view of [`ArtworkImage`].
pub ghost struct ArtworkImageView {
    pub urls: Option<ArtworkImageUrlView>,
    pub nsfw: Option<ArtworkImageNsfw>,
}

impl View for ArtworkImage {
    type V = ArtworkImageView;

    open spec fn view(&self) -> ArtworkImageView {
        ArtworkImageView {
            urls: match self.urls {
                Some(u) => Some(u@),
                None => None,
            },
            nsfw: self.nsfw,
        }
    }
}

impl Clone for ArtworkImage {
    fn clone(&self) -> (r: Self)
        ensures
            r@ == self@,
    {
        ArtworkImage {
            urls: match &self.urls {
                Some(u) => Some(u.clone()),
                None => None,
            },
            nsfw: self.nsfw,
        }
    }
}

/// The canonical artwork entity, keyed by the business identifier `art_id`.
pub struct ArtworkInfo {
    pub art_id: i64,
    pub title: String,
    pub tag_str: String,
    pub characters: Vec<String>,
    pub view_count: i32,
    pub like_count: i32,
    pub love_count: i32,
    pub artist_id: i64,
    pub upload_timestamp: i64,
    pub is_404: Option<bool>,
    pub sl: Option<i32>,
    pub images: Option<Vec<ArtworkImage>>,
    pub moderate: Option<ArtworkModerate>,
}

/// Mathematical view of [`ArtworkInfo`].
pub ghost struct ArtworkInfoView {
    pub art_id: i64,
    pub title: Seq<u8>,
    pub tag_str: Seq<u8>,
    pub characters: Seq<Seq<u8>>,
    pub view_count: i32,
    pub like_count: i32,
    pub love_count: i32,
    pub artist_id: i64,
    pub upload_timestamp: i64,
    pub is_404: Option<bool>,
    pub sl: Option<i32>,
    pub images: Option<Seq<ArtworkImageView>>,
    pub moderate: Option<ArtworkModerateView>,
}

impl View for ArtworkInfo {
    type V = ArtworkInfoView;

    open spec fn view(&self) -> ArtworkInfoView {
        ArtworkInfoView {
            art_id: self.art_id,
            title: str_bytes(self.title@),
            tag_str: str_bytes(self.tag_str@),
            characters: self.characters@.map_values(|s: String| str_bytes(s@)),
            view_count: self.view_count,
            like_count: self.like_count,
            love_count: self.love_count,
            artist_id: self.artist_id,
            upload_timestamp: self.upload_timestamp,
            is_404: self.is_404,
            sl: self.sl,
            images: match self.images {
                Some(v) => Some(v@.map_values(|i: ArtworkImage| i@)),
                None => None,
            },
            moderate: match self.moderate {
                Some(m) => Some(m@),
                None => None,
            },
        }
    }
}

fn clone_opt_string(o: &Option<String>) -> (r: Option<String>)
    ensures
        opt_str_bytes(r) == opt_str_bytes(*o),
{
    match o {
        Some(s) => Some(s.clone()),
        None => None,
    }
}

fn clone_string_vec(v: &Vec<String>) -> (r: Vec<String>)
    ensures
        r@.map_values(|s: String| str_bytes(s@)) == v@.map_values(|s: String| str_bytes(s@)),
{
    let r = v.clone();
    proof {
        assert forall|i: int| 0 <= i < r@.len() implies str_bytes(r@[i]@) == str_bytes(
            v@[i]@,
        ) by {
            assert(cloned::<String>(v[i], r[i]));
        }
        assert(r@.map_values(|s: String| str_bytes(s@)) =~= v@.map_values(
            |s: String| str_bytes(s@),
        ));
    }
    r
}

fn clone_image_vec(v: &Vec<ArtworkImage>) -> (r: Vec<ArtworkImage>)
    ensures
        r@.map_values(|i: ArtworkImage| i@) == v@.map_values(|i: ArtworkImage| i@),
{
    let r = v.clone();
    proof {
        assert forall|i: int| 0 <= i < r@.len() implies r@[i]@ == v@[i]@ by {
            assert(cloned::<ArtworkImage>(v[i], r[i]));
        }
        assert(r@.map_values(|i: ArtworkImage| i@) =~= v@.map_values(|i: ArtworkImage| i@));
    }
    r
}

impl Clone for ArtworkInfo {
    fn clone(&self) -> (r: Self)
        ensures
            r@ == self@,
    {
        ArtworkInfo {
            art_id: self.art_id,
            title: self.title.clone(),
            tag_str: self.tag_str.clone(),
            characters: clone_string_vec(&self.characters),
            view_count: self.view_count,
            like_count: self.like_count,
            love_count: self.love_count,
            artist_id: self.artist_id,
            upload_timestamp: self.upload_timestamp,
            is_404: self.is_404,
            sl: self.sl,
            images: match &self.images {
                Some(v) => Some(clone_image_vec(v)),
                None => None,
            },
            moderate: match &self.moderate {
                Some(m) => Some(m.clone()),
                None => None,
            },
        }
    }
}

/// A content-rating category, the partition a pre-filtered view is kept for.
#[derive(Clone, Copy, PartialEq, Eq, Structural)]
pub enum Category {
    Sfw,
    Nsfw,
    R18,
}

/// The moderation label of a category, as stored in `moderate.type`
/// (case-sensitive, uppercase).
pub open spec fn category_label(c: Category) -> Seq<u8> {
    match c {
        Category::Sfw => seq!['S' as u8, 'F' as u8, 'W' as u8],
        Category::Nsfw => seq!['N' as u8, 'S' as u8, 'F' as u8, 'W' as u8],
        Category::R18 => seq!['R' as u8, '1' as u8, '8' as u8],
    }
}

/// The `moderate.status` value `PASS`.
pub open spec fn pass_bytes() -> Seq<u8> {
    seq!['P' as u8, 'A' as u8, 'S' as u8, 'S' as u8]
}

/// The `moderate.status` value `PUSH`.
pub open spec fn push_bytes() -> Seq<u8> {
    seq!['P' as u8, 'U' as u8, 'S' as u8, 'H' as u8]
}

/// Category-view membership: the record is not gone (`is_404` absent or
/// false), its moderation type equals the category label exactly, and its
/// moderation status is `PASS` or `PUSH`.
pub open spec fn record_in_category(r: ArtworkInfoView, c: Category) -> bool {
    &&& r.is_404 != Some(true)
    &&& match r.moderate {
        Some(m) => m.art_type == Some(category_label(c)) && (m.status == Some(pass_bytes())
            || m.status == Some(push_bytes())),
        None => false,
    }
}

/// The bytes of a category label, as an executable value.
pub fn category_label_bytes(c: Category) -> (r: Vec<u8>)
    ensures
        r@ == category_label(c),
{
    let mut v: Vec<u8> = Vec::new();
    match c {
        Category::Sfw => {
            v.push('S' as u8);
            v.push('F' as u8);
            v.push('W' as u8);
        },
        Category::Nsfw => {
            v.push('N' as u8);
            v.push('S' as u8);
            v.push('F' as u8);
            v.push('W' as u8);
        },
        Category::R18 => {
            v.push('R' as u8);
            v.push('1' as u8);
            v.push('8' as u8);
        },
    }
    proof {
        assert(v@ =~= category_label(c));
    }
    v
}

fn status_is_live(s: &String) -> (r: bool)
    ensures
        r == (str_bytes(s@) == pass_bytes() || str_bytes(s@) == push_bytes()),
{
    let b = string_bytes(s);
    let mut pass: Vec<u8> = Vec::new();
    pass.push('P' as u8);
    pass.push('A' as u8);
    pass.push('S' as u8);
    pass.push('S' as u8);
    let mut push: Vec<u8> = Vec::new();
    push.push('P' as u8);
    push.push('U' as u8);
    push.push('S' as u8);
    push.push('H' as u8);
    proof {
        assert(pass@ =~= pass_bytes());
        assert(push@ =~= push_bytes());
    }
    eq_bytes(b, pass.as_slice()) || eq_bytes(b, push.as_slice())
}

impl ArtworkInfo {
    /// Whether this record belongs to the pre-filtered view of category `c`.
    pub fn in_category(&self, c: Category) -> (r: bool)
        ensures
            r == record_in_category(self@, c),
    {
        let live = match self.is_404 {
            Some(f) => !f,
            None => true,
        };
        if !live {
            return false;
        }
        match &self.moderate {
            None => false,
            Some(m) => match (&m.art_type, &m.status) {
                (Some(t), Some(s)) => {
                    let label = category_label_bytes(c);
                    eq_bytes(string_bytes(t), label.as_slice()) && status_is_live(s)
                },
                _ => false,
            },
        }
    }
}

/// `b` is a case variant of the label `NSFW`: a letter-wise case variant.
/// Beyond the ASCII cases, the one Unicode character whose upper case is
/// `S` is U+017F (LATIN SMALL LETTER LONG S, two bytes `C5 BF`), so a
/// label such as `nſfw` also upper-cases to `NSFW` and counts.
pub open spec fn label_is_nsfw(b: Seq<u8>) -> bool {
    ||| ci_eq(b, category_label(Category::Nsfw))
    ||| (b.len() == 5 && lower(b[0]) == 'n' as u8 && b[1] == 0xc5 && b[2] == 0xbf && lower(b[3])
        == 'f' as u8 && lower(b[4]) == 'w' as u8)
}

/// `b` is a case variant of the label `R18`. `R`, `1` and `8` have no case
/// variants outside ASCII, so ASCII folding is the whole class.
pub open spec fn label_is_r18(b: Seq<u8>) -> bool {
    ci_eq(b, category_label(Category::R18))
}

/// Parsing of a category label by its upper-cased form; anything
/// unrecognized, including the absent label, falls open to SFW. (A case
/// variant of `SFW` itself lands on SFW through the default, so only the
/// NSFW and R18 classes need naming.)
pub open spec fn category_of_label(b: Seq<u8>) -> Category {
    if label_is_nsfw(b) {
        Category::Nsfw
    } else if label_is_r18(b) {
        Category::R18
    } else {
        Category::Sfw
    }
}

/// Resolve a content-rating label to its category by its upper-cased form;
/// unrecognized labels map to SFW.
pub fn resolve_category(label: &str) -> (c: Category)
    ensures
        c == category_of_label(str_bytes(label@)),
{
    let b = label.as_bytes();
    let nsfw = category_label_bytes(Category::Nsfw);
    let r18 = category_label_bytes(Category::R18);
    let long_s_nsfw = b.len() == 5 && lower_byte(b[0]) == 'n' as u8 && b[1] == 0xc5 && b[2]
        == 0xbf && lower_byte(b[3]) == 'f' as u8 && lower_byte(b[4]) == 'w' as u8;
    if ci_eq_bytes(b, nsfw.as_slice()) || long_s_nsfw {
        Category::Nsfw
    } else if ci_eq_bytes(b, r18.as_slice()) {
        Category::R18
    } else {
        Category::Sfw
    }
}

/// Every label outside the NSFW and R18 case-variant classes resolves to
/// the SFW category: the partitioner fails open rather than erroring.
pub proof fn lemma_unrecognized_label_defaults_to_sfw(b: Seq<u8>)
    requires
        !label_is_nsfw(b),
        !label_is_r18(b),
    ensures
        category_of_label(b) == Category::Sfw,
{
}

} // verus!
