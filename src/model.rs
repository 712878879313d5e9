//! The catalog's plain data: locales, content kinds and references, listing
//! pages as parsed from the remote service, and the named endpoints.
use vstd::prelude::*;
use vstd::string::*;

verus! {

/// One region and language pair: an independent crawl namespace.
pub struct Locale {
    pub region: String,
    pub language: String,
}

/// The kinds of content that have a detail endpoint of their own.
#[derive(Clone, Copy, PartialEq, Eq, Structural, Debug)]
pub enum ContentType {
    Title,
    Movie,
    Demo,
}

/// A reference to one item of content, as found in a listing or detail document.
pub struct ContentRef {
    pub kind: ContentType,
    pub id: String,
}

/// One `<content>` entry of a listing page: its reported 1-based index and
/// the title or movie it holds.
pub struct ListingEntry {
    pub index: String,
    pub kind: ContentType,
    pub id: String,
}

/// The parsed `<contents>` node of one listing page.
pub struct ListingPage {
    pub length: Option<usize>,
    pub offset: Option<usize>,
    pub total: usize,
    pub entries: Vec<ListingEntry>,
}

/// The single-document endpoints of the listing service.
#[derive(Clone, Copy, PartialEq, Eq, Structural, Debug)]
pub enum EndPoint {
    Contents,
    Titles,
    Movies,
    News,
    Telops,
    Directories,
    Genres,
    Publishers,
    PublisherContacts,
    Platforms,
    Languages,
    Rankings,
    SearchCategory,
}

/// The path of an endpoint below the service's base address.
pub open spec fn endpoint_path(e: EndPoint) -> Seq<char> {
    match e {
        EndPoint::Contents => "contents"@,
        EndPoint::Titles => "titles"@,
        EndPoint::Movies => "movies"@,
        EndPoint::News => "news"@,
        EndPoint::Telops => "telops"@,
        EndPoint::Directories => "directories"@,
        EndPoint::Genres => "genres"@,
        EndPoint::Publishers => "publishers"@,
        EndPoint::PublisherContacts => "publishers/contacts"@,
        EndPoint::Platforms => "platforms"@,
        EndPoint::Languages => "languages"@,
        EndPoint::Rankings => "rankings"@,
        EndPoint::SearchCategory => "searchcategory"@,
    }
}

/// The path segment of a content kind's detail endpoint.
pub open spec fn kind_path(k: ContentType) -> Seq<char> {
    match k {
        ContentType::Title => "title"@,
        ContentType::Movie => "movie"@,
        ContentType::Demo => "demo"@,
    }
}

impl EndPoint {
    /// The endpoint's path below the service's base address.
    pub fn path(&self) -> (r: &'static str)
        ensures
            r@ == endpoint_path(*self),
    {
        match self {
            EndPoint::Contents => "contents",
            EndPoint::Titles => "titles",
            EndPoint::Movies => "movies",
            EndPoint::News => "news",
            EndPoint::Telops => "telops",
            EndPoint::Directories => "directories",
            EndPoint::Genres => "genres",
            EndPoint::Publishers => "publishers",
            EndPoint::PublisherContacts => "publishers/contacts",
            EndPoint::Platforms => "platforms",
            EndPoint::Languages => "languages",
            EndPoint::Rankings => "rankings",
            EndPoint::SearchCategory => "searchcategory",
        }
    }
}

impl ContentType {
    /// The path segment of this kind's detail endpoint.
    pub fn path(&self) -> (r: &'static str)
        ensures
            r@ == kind_path(*self),
    {
        match self {
            ContentType::Title => "title",
            ContentType::Movie => "movie",
            ContentType::Demo => "demo",
        }
    }
}

/// The locales of a region: one per language that the region offers.
pub fn locales_of(region: &str, languages: &Vec<String>) -> (r: Option<Vec<Locale>>)
    ensures
        languages@.len() == 0 <==> r is None,
        r is Some ==> r->0@.len() == languages@.len() && forall|i: int|
            0 <= i < languages@.len() ==> (#[trigger] r->0@[i]).region@ == region@
                && r->0@[i].language@ == languages@[i]@,
{
    if languages.len() == 0 {
        return None;
    }
    let mut out: Vec<Locale> = Vec::new();
    let mut i: usize = 0;
    while i < languages.len()
        invariant
            0 <= i <= languages@.len(),
            out@.len() == i,
            forall|j: int|
                0 <= j < i ==> (#[trigger] out@[j]).region@ == region@ && out@[j].language@
                    == languages@[j]@,
        decreases languages@.len() - i,
    {
        out.push(Locale { region: String::from_str(region), language: languages[i].clone() });
        i = i + 1;
    }
    Some(out)
}

} // verus!
