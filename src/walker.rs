//! The content graph walker of one locale: decides, request by request,
//! which listing or detail document to fetch next, and grows its frontiers
//! from what the fetched documents report.
//!
//! The walker never performs a request itself. Its driver asks for the next
//! action, carries it out, and hands back what the action produced.
use vstd::prelude::*;
use vstd::string::*;
use crate::frontier::{ids_view, lex_lt, strictly_sorted, Frontier};
use crate::listing::ListingFlavor;
use crate::model::{ContentRef, ContentType, EndPoint};

verus! {

/// Where the crawl of a locale starts.
pub enum Seed {
    /// Discover everything from the root listing and the directory list.
    Discover,
    /// Only the given items; a directory brings its contents along.
    Only { title: Option<String>, movie: Option<String>, directory: Option<String> },
}

/// One request that the driver is to make.
#[derive(Debug)]
pub enum Action {
    /// Fetch and keep a single-document endpoint; after `Rankings`, hand
    /// back the ranking identifiers with `ranking_ids`.
    FetchEndpoint(EndPoint),
    /// Assemble the paginated listing below `path`, then hand back its
    /// references with `listed`.
    AssembleListing { flavor: ListingFlavor, path: String },
    /// Fetch the directory list, then hand back its identifiers with
    /// `directory_ids`.
    FetchDirectoryList,
    /// Fetch and keep a detail document; for a title, hand back what it
    /// declares with `title_detail`.
    FetchDetail { kind: ContentType, id: String },
    /// Fetch and keep the id-mapping record of a title or demo.
    FetchEcInfo { id: String },
    /// Fetch and keep the price record of a title.
    FetchPrices { id: String },
    /// Fetch and keep the add-on content list of a title.
    FetchAocs { id: String },
    /// The crawl of this locale is complete.
    Finished,
}

/// What a title's detail document declares.
pub struct TitleInfo {
    pub aoc_available: bool,
    pub demo_available: bool,
    pub demo_ids: Option<Vec<String>>,
    pub movie_ids: Vec<String>,
}

/// Why the walker refused what it was handed.
#[derive(Clone, Copy, PartialEq, Eq, Structural, Debug)]
pub enum WalkError {
    /// An event was handed back that the last action does not produce, or
    /// an action was asked for while an event is owed.
    OutOfTurn,
    /// A title declares demos but lists none.
    MissingDemos,
    /// A listing holds a demo, which listings never do.
    DemoInListing,
}

/// A request about the title or demo whose detail was fetched last.
#[derive(Clone, Copy, PartialEq, Eq, Structural, Debug)]
pub enum FollowUp {
    EcInfo,
    Prices,
    Aocs,
}

/// The stage that the walk of a locale has reached, in order.
#[derive(Clone, Copy, PartialEq, Eq, Structural, Debug)]
pub enum Phase {
    Endpoints,
    Rankings,
    Contents,
    DirectoryList,
    Directories,
    Titles,
    Movies,
    Demos,
    Finished,
}

/// What the walker must be handed before it gives its next action.
#[derive(Clone, Copy, PartialEq, Eq, Structural, Debug)]
pub enum Awaiting {
    Nothing,
    RankingIds,
    Listing,
    DirectoryIds,
    TitleDetail,
}

/// The single-document endpoints fetched for every locale, in order.
pub open spec fn endpoint_order() -> Seq<EndPoint> {
    seq![
        EndPoint::News,
        EndPoint::Telops,
        EndPoint::Directories,
        EndPoint::Genres,
        EndPoint::Publishers,
        EndPoint::PublisherContacts,
        EndPoint::Platforms,
        EndPoint::SearchCategory,
        EndPoint::Languages,
        EndPoint::Rankings,
    ]
}

fn endpoint_at(i: usize) -> (e: EndPoint)
    requires
        i < 10,
    ensures
        e == endpoint_order()[i as int],
{
    match i {
        0 => EndPoint::News,
        1 => EndPoint::Telops,
        2 => EndPoint::Directories,
        3 => EndPoint::Genres,
        4 => EndPoint::Publishers,
        5 => EndPoint::PublisherContacts,
        6 => EndPoint::Platforms,
        7 => EndPoint::SearchCategory,
        8 => EndPoint::Languages,
        _ => EndPoint::Rankings,
    }
}

/// The pairs of a kind and the first `n` identifiers of a list.
pub open spec fn prefix_pairs(kind: ContentType, ids: Seq<Seq<char>>, n: int) -> Set<
    (ContentType, Seq<char>),
> {
    Set::new(
        |p: (ContentType, Seq<char>)| p.0 == kind && exists|j: int| 0 <= j < n && ids[j] == p.1,
    )
}

/// Every pair of a kind with one of the identifiers in a set.
pub open spec fn kind_pairs(kind: ContentType, ids: Set<Seq<char>>) -> Set<(ContentType, Seq<char>)> {
    Set::new(|p: (ContentType, Seq<char>)| p.0 == kind && ids.contains(p.1))
}

proof fn lemma_prefix_full(kind: ContentType, ids: Seq<Seq<char>>)
    ensures
        prefix_pairs(kind, ids, ids.len() as int) == kind_pairs(kind, ids.to_set()),
{
    assert(prefix_pairs(kind, ids, ids.len() as int) =~= kind_pairs(kind, ids.to_set()));
}

/// The identifier that an option holds, as a set.
pub open spec fn opt_ids(o: Option<String>) -> Set<Seq<char>> {
    match o {
        Some(s) => set![s@],
        None => Set::empty(),
    }
}

proof fn lemma_prefix_before(kind: ContentType, ids: Seq<Seq<char>>, n: int)
    requires
        0 <= n < ids.len(),
        strictly_sorted(ids),
    ensures
        forall|p: (ContentType, Seq<char>)|
            #[trigger] prefix_pairs(kind, ids, n).contains(p) ==> lex_lt(p.1, ids[n]),
{
    assert forall|p: (ContentType, Seq<char>)|
        #[trigger] prefix_pairs(kind, ids, n).contains(p) implies lex_lt(p.1, ids[n]) by {
        let j = choose|j: int| 0 <= j < n && ids[j] == p.1;
    }
}

/// The identifiers of one kind among a list of references.
pub open spec fn ids_of_kind(refs: Seq<ContentRef>, kind: ContentType) -> Set<Seq<char>> {
    Set::new(
        |id: Seq<char>| exists|i: int| 0 <= i < refs.len() && refs[i].kind == kind && refs[i].id@ == id,
    )
}

pub open spec fn has_demo(refs: Seq<ContentRef>) -> bool {
    exists|i: int| 0 <= i < refs.len() && refs[i].kind == ContentType::Demo
}

/// The crawl state of one locale.
pub struct Walker {
    omit_ninja: bool,
    discover: bool,
    phase: Phase,
    awaiting: Awaiting,
    index: usize,
    rankings: Vec<String>,
    directories: Frontier,
    titles: Frontier,
    movies: Frontier,
    demos: Frontier,
    current: String,
    follow: Vec<FollowUp>,
    root_listed: bool,
    directory_list_read: bool,
}

proof fn lemma_prefix_step(kind: ContentType, ids: Seq<Seq<char>>, n: int)
    requires
        0 <= n < ids.len(),
        ids.no_duplicates(),
    ensures
        !prefix_pairs(kind, ids, n).contains((kind, ids[n])),
        prefix_pairs(kind, ids, n + 1) == prefix_pairs(kind, ids, n).insert((kind, ids[n])),
{
    assert(prefix_pairs(kind, ids, n + 1) =~= prefix_pairs(kind, ids, n).insert((kind, ids[n])));
}

proof fn lemma_prefix_empty(kind: ContentType, ids: Seq<Seq<char>>)
    ensures
        prefix_pairs(kind, ids, 0) == Set::<(ContentType, Seq<char>)>::empty(),
{
    assert(prefix_pairs(kind, ids, 0) =~= Set::<(ContentType, Seq<char>)>::empty());
}

impl Walker {
    /// The (kind, identifier) pairs whose detail document has been requested.
    pub closed spec fn visited(&self) -> Set<(ContentType, Seq<char>)> {
        match self.phase {
            Phase::Titles => prefix_pairs(ContentType::Title, self.titles@, self.index as int),
            Phase::Movies => prefix_pairs(
                ContentType::Title,
                self.titles@,
                self.titles@.len() as int,
            ) + prefix_pairs(ContentType::Movie, self.movies@, self.index as int),
            Phase::Demos => prefix_pairs(ContentType::Title, self.titles@, self.titles@.len() as int)
                + prefix_pairs(ContentType::Movie, self.movies@, self.movies@.len() as int)
                + prefix_pairs(ContentType::Demo, self.demos@, self.index as int),
            Phase::Finished => prefix_pairs(
                ContentType::Title,
                self.titles@,
                self.titles@.len() as int,
            ) + prefix_pairs(ContentType::Movie, self.movies@, self.movies@.len() as int)
                + prefix_pairs(ContentType::Demo, self.demos@, self.demos@.len() as int),
            _ => Set::empty(),
        }
    }

    /// The titles, movies and demos known so far, fetched or pending.
    pub closed spec fn known_titles(&self) -> Set<Seq<char>> {
        self.titles@.to_set()
    }

    pub closed spec fn known_movies(&self) -> Set<Seq<char>> {
        self.movies@.to_set()
    }

    pub closed spec fn known_demos(&self) -> Set<Seq<char>> {
        self.demos@.to_set()
    }

    pub closed spec fn spec_phase(&self) -> Phase {
        self.phase
    }

    pub closed spec fn spec_awaiting(&self) -> Awaiting {
        self.awaiting
    }

    /// The follow-up requests still owed, the next one last.
    pub closed spec fn follow_ups(&self) -> Seq<FollowUp> {
        self.follow@
    }

    /// The identifier that follow-up requests concern.
    pub closed spec fn current_item(&self) -> Seq<char> {
        self.current@
    }

    pub closed spec fn discovers(&self) -> bool {
        self.discover
    }

    /// Whether the references of the root listing were handed back.
    pub closed spec fn consulted_root(&self) -> bool {
        self.root_listed
    }

    /// Whether the directory list was handed back.
    pub closed spec fn consulted_directory_list(&self) -> bool {
        self.directory_list_read
    }

    /// The rankings whose listing was requested.
    pub closed spec fn assembled_rankings(&self) -> Set<Seq<char>> {
        if self.phase == Phase::Rankings {
            ids_view(self.rankings@).take(self.index as int).to_set()
        } else if phase_rank(self.phase) < 7 {
            ids_view(self.rankings@).to_set()
        } else {
            Set::empty()
        }
    }

    /// The directories whose listing was requested.
    pub closed spec fn assembled_directories(&self) -> Set<Seq<char>> {
        if self.phase == Phase::Directories {
            self.directories@.take(self.index as int).to_set()
        } else if phase_rank(self.phase) < 4 {
            self.directories@.to_set()
        } else {
            Set::empty()
        }
    }

    /// The position reached within the current phase.
    pub closed spec fn cursor(&self) -> nat {
        self.index as nat
    }

    /// The requests left in the current phase, follow-ups aside.
    pub closed spec fn left_in_phase(&self) -> nat {
        match self.phase {
            Phase::Endpoints => (10 - self.index) as nat,
            Phase::Rankings => (self.rankings@.len() - self.index) as nat,
            Phase::Contents => (1 - self.index) as nat,
            Phase::DirectoryList => (1 - self.index) as nat,
            Phase::Directories => (self.directories@.len() - self.index) as nat,
            Phase::Titles => (self.titles@.len() - self.index) as nat,
            Phase::Movies => (self.movies@.len() - self.index) as nat,
            Phase::Demos => (self.demos@.len() - self.index) as nat,
            Phase::Finished => 0,
        }
    }

    pub closed spec fn known_directories(&self) -> Set<Seq<char>> {
        self.directories@.to_set()
    }

    pub closed spec fn ranking_list(&self) -> Seq<Seq<char>> {
        ids_view(self.rankings@)
    }

    pub closed spec fn inv(&self) -> bool {
        &&& self.directories.inv()
        &&& self.titles.inv()
        &&& self.movies.inv()
        &&& self.demos.inv()
        &&& self.phase == Phase::Endpoints ==> self.index <= 10
        &&& self.phase == Phase::Rankings ==> self.index <= self.rankings@.len()
        &&& self.phase == Phase::Directories ==> self.index <= self.directories@.len()
        &&& self.phase == Phase::Titles ==> self.index <= self.titles@.len()
        &&& self.phase == Phase::Movies ==> self.index <= self.movies@.len()
        &&& self.phase == Phase::Demos ==> self.index <= self.demos@.len()
        &&& self.awaiting == Awaiting::TitleDetail ==> self.phase == Phase::Titles && 0
            < self.index
        &&& self.discover && phase_rank(self.phase) <= 4 ==> self.root_listed
            && self.directory_list_read
        &&& self.discover && self.phase == Phase::DirectoryList ==> self.root_listed
        &&& self.phase == Phase::DirectoryList && self.index != 0 && self.awaiting
            == Awaiting::Nothing ==> self.directory_list_read
        &&& self.phase == Phase::Contents && self.index != 0 && self.awaiting
            == Awaiting::Nothing ==> self.root_listed
        &&& (self.phase == Phase::Contents || self.phase == Phase::DirectoryList) ==> self.index
            <= 1
        &&& !self.discover ==> self.phase != Phase::Contents && self.phase != Phase::DirectoryList
        &&& phase_rank(self.phase) <= 4 ==> strictly_sorted(self.directories@)
        &&& phase_rank(self.phase) <= 3 ==> strictly_sorted(self.titles@)
        &&& phase_rank(self.phase) <= 2 ==> strictly_sorted(self.movies@)
        &&& phase_rank(self.phase) <= 1 ==> strictly_sorted(self.demos@)
        &&& self.awaiting == Awaiting::RankingIds ==> self.phase == Phase::Endpoints
        &&& self.awaiting == Awaiting::DirectoryIds ==> self.phase == Phase::DirectoryList
        &&& self.awaiting == Awaiting::Listing ==> self.phase == Phase::Rankings || self.phase
            == Phase::Contents || self.phase == Phase::Directories
    }

    /// A walker for one locale; `omit_ninja` leaves out the records of the
    /// pricing and id-mapping service.
    pub fn new(seed: Seed, omit_ninja: bool) -> (r: Walker)
        ensures
            r.inv(),
            r.visited() == Set::<(ContentType, Seq<char>)>::empty(),
            r.spec_phase() == Phase::Endpoints,
            r.spec_awaiting() == Awaiting::Nothing,
            r.discovers() == (seed is Discover),
            r.omits_ninja() == omit_ninja,
            r.follow_ups().len() == 0,
            r.known_demos() == Set::<Seq<char>>::empty(),
            seed is Discover ==> r.known_titles() == Set::<Seq<char>>::empty()
                && r.known_movies() == Set::<Seq<char>>::empty()
                && r.known_directories() == Set::<Seq<char>>::empty(),
            match seed {
                Seed::Only { title, movie, directory } => r.known_titles() == opt_ids(title)
                    && r.known_movies() == opt_ids(movie) && r.known_directories() == opt_ids(
                    directory,
                ),
                Seed::Discover => true,
            },
    {
        let mut titles = Frontier::new();
        let mut movies = Frontier::new();
        let mut directories = Frontier::new();
        let discover = match &seed {
            Seed::Discover => true,
            Seed::Only { title, movie, directory } => {
                if let Some(t) = title {
                    titles.add(t.as_str());
                }
                if let Some(m) = movie {
                    movies.add(m.as_str());
                }
                if let Some(d) = directory {
                    directories.add(d.as_str());
                }
                false
            },
        };
        proof {
            assert(Seq::<Seq<char>>::empty().to_set() =~= Set::<Seq<char>>::empty());
            assert(Set::<Seq<char>>::empty().insert(seq![]) =~= Set::<Seq<char>>::empty().insert(seq![]));
            match &seed {
                Seed::Only { title, movie, directory } => {
                    assert(titles@.to_set() =~= opt_ids(*title));
                    assert(movies@.to_set() =~= opt_ids(*movie));
                    assert(directories@.to_set() =~= opt_ids(*directory));
                },
                Seed::Discover => {},
            }
        }
        Walker {
            omit_ninja,
            discover,
            phase: Phase::Endpoints,
            awaiting: Awaiting::Nothing,
            index: 0,
            rankings: Vec::new(),
            directories,
            titles,
            movies,
            demos: Frontier::new(),
            current: String::new(),
            follow: Vec::new(),
            root_listed: false,
            directory_list_read: false,
        }
    }
}

/// The rank of a phase: it falls as the crawl moves on.
pub open spec fn phase_rank(p: Phase) -> nat {
    match p {
        Phase::Endpoints => 8,
        Phase::Rankings => 7,
        Phase::Contents => 6,
        Phase::DirectoryList => 5,
        Phase::Directories => 4,
        Phase::Titles => 3,
        Phase::Movies => 2,
        Phase::Demos => 1,
        Phase::Finished => 0,
    }
}

/// The follow-up requests of a title, the next one last: its id-mapping
/// and price records unless they are left out, then its add-on content list
/// where it has add-on content.
pub open spec fn title_follow_ups(aoc_available: bool, omit_ninja: bool) -> Seq<FollowUp> {
    (if aoc_available {
        seq![FollowUp::Aocs]
    } else {
        seq![]
    }) + (if omit_ninja {
        seq![]
    } else {
        seq![FollowUp::Prices, FollowUp::EcInfo]
    })
}

pub open spec fn demo_list(info: TitleInfo) -> Seq<Seq<char>> {
    match info.demo_ids {
        Some(v) => ids_view(v@),
        None => seq![],
    }
}

impl Walker {
    pub closed spec fn omits_ninja(&self) -> bool {
        self.omit_ninja
    }

    /// The next request to make. Every detail request is for a (kind,
    /// identifier) pair that was not requested before.
    #[verifier::rlimit(100)]
    #[verifier::spinoff_prover]
    pub fn next_action(&mut self) -> (r: Result<Action, WalkError>)
        requires
            old(self).inv(),
        ensures
            final(self).inv(),
            old(self).spec_awaiting() != Awaiting::Nothing <==> r == Err::<Action, WalkError>(
                WalkError::OutOfTurn,
            ),
            match r {
                Ok(Action::FetchDetail { kind, id }) => !old(self).visited().contains((kind, id@))
                    && final(self).visited() == old(self).visited().insert((kind, id@)),
                _ => final(self).visited() == old(self).visited(),
            },
            final(self).known_titles() == old(self).known_titles(),
            final(self).known_movies() == old(self).known_movies(),
            final(self).known_demos() == old(self).known_demos(),
            final(self).discovers() == old(self).discovers(),
            final(self).omits_ninja() == old(self).omits_ninja(),
            old(self).follow_ups().len() > 0 && old(self).spec_awaiting() == Awaiting::Nothing
                ==> final(self).follow_ups() == old(self).follow_ups().drop_last() && r
                == Ok::<Action, WalkError>(
                match old(self).follow_ups().last() {
                    FollowUp::EcInfo => Action::FetchEcInfo { id: r->Ok_0->FetchEcInfo_id },
                    FollowUp::Prices => Action::FetchPrices { id: r->Ok_0->FetchPrices_id },
                    FollowUp::Aocs => Action::FetchAocs { id: r->Ok_0->FetchAocs_id },
                },
            ),
            r is Ok && r->Ok_0 is Finished && final(self).discovers() ==> final(self).consulted_root(),
            r is Ok && r->Ok_0 is Finished && final(self).discovers() ==> final(self).consulted_directory_list(),
            r is Ok && r->Ok_0 is Finished ==> final(self).visited() == kind_pairs(
                ContentType::Title,
                final(self).known_titles(),
            ) + kind_pairs(ContentType::Movie, final(self).known_movies()) + kind_pairs(
                ContentType::Demo,
                final(self).known_demos(),
            ),
            old(self).spec_awaiting() == Awaiting::Nothing ==> r is Ok,
            r is Ok && (r->Ok_0 is FetchEcInfo || r->Ok_0 is FetchPrices || r->Ok_0 is FetchAocs)
                ==> old(self).follow_ups().len() > 0,
            r is Ok && old(self).follow_ups().len() == 0 && !(r->Ok_0 is Finished) ==> phase_rank(
                final(self).spec_phase(),
            ) < phase_rank(old(self).spec_phase()) || final(self).spec_phase() == old(
                self,
            ).spec_phase() && final(self).left_in_phase() < old(self).left_in_phase(),
            r is Ok && r->Ok_0 is Finished ==> final(self).spec_phase() == Phase::Finished,
            r is Ok && !old(self).discovers() ==> !(r->Ok_0 is FetchDirectoryList),
            r is Ok && !old(self).discovers() && r->Ok_0 is AssembleListing
                ==> r->Ok_0->AssembleListing_flavor != ListingFlavor::Contents,
            r is Ok && r->Ok_0 is FetchEndpoint ==> old(self).spec_phase() == Phase::Endpoints
                && old(self).cursor() < 10 && r->Ok_0->FetchEndpoint_0 == endpoint_order()[old(
                self,
            ).cursor() as int] && final(self).cursor() == old(self).cursor() + 1,
            match r {
                Ok(Action::AssembleListing { flavor: ListingFlavor::Directory, path }) => exists|
                    d: Seq<char>,
                |
                    path@ == "directory/"@ + d && final(self).known_directories().contains(d)
                        && final(self).assembled_directories() == old(
                        self,
                    ).assembled_directories().insert(d),
                _ => final(self).assembled_directories() == old(self).assembled_directories(),
            },
            match r {
                Ok(Action::AssembleListing { flavor: ListingFlavor::Ranking, path }) => exists|
                    d: Seq<char>,
                |
                    path@ == "ranking/"@ + d && final(self).ranking_list().contains(d)
                        && final(self).assembled_rankings() == old(
                        self,
                    ).assembled_rankings().insert(d),
                _ => final(self).assembled_rankings() == old(self).assembled_rankings(),
            },
            r is Ok && (r->Ok_0 is FetchDetail || r->Ok_0 is Finished) ==> final(self).assembled_directories() == final(self).known_directories() && final(self).assembled_rankings() == final(self).ranking_list().to_set(),
            match r {
                Ok(Action::FetchDetail { kind, id }) => {
                    &&& final(self).current_item() == id@
                    &&& forall|p: (ContentType, Seq<char>)|
                        old(self).visited().contains(p) && p.0 == kind ==> lex_lt(p.1, id@)
                    &&& kind == ContentType::Title ==> final(self).spec_awaiting()
                        == Awaiting::TitleDetail && final(self).follow_ups().len() == 0
                    &&& kind == ContentType::Movie ==> final(self).spec_awaiting()
                        == Awaiting::Nothing && final(self).follow_ups().len() == 0
                        && kind_pairs(ContentType::Title, final(self).known_titles()).subset_of(
                        final(self).visited(),
                    )
                    &&& kind == ContentType::Demo ==> final(self).spec_awaiting()
                        == Awaiting::Nothing && final(self).follow_ups() == (if old(
                        self,
                    ).omits_ninja() {
                        Seq::<FollowUp>::empty()
                    } else {
                        seq![FollowUp::EcInfo]
                    }) && (kind_pairs(ContentType::Title, final(self).known_titles()) + kind_pairs(
                        ContentType::Movie,
                        final(self).known_movies(),
                    )).subset_of(final(self).visited())
                },
                _ => true,
            },
            r is Ok && r->Ok_0 is FetchEcInfo ==> r->Ok_0->FetchEcInfo_id@ == old(
                self,
            ).current_item(),
            r is Ok && r->Ok_0 is FetchPrices ==> r->Ok_0->FetchPrices_id@ == old(
                self,
            ).current_item(),
            r is Ok && r->Ok_0 is FetchAocs ==> r->Ok_0->FetchAocs_id@ == old(
                self,
            ).current_item(),
    {
        if self.awaiting != Awaiting::Nothing {
            return Err(WalkError::OutOfTurn);
        }
        if self.follow.len() > 0 {
            let f = self.follow.pop().unwrap();
            let id = self.current.clone();
            return Ok(
                match f {
                    FollowUp::EcInfo => Action::FetchEcInfo { id },
                    FollowUp::Prices => Action::FetchPrices { id },
                    FollowUp::Aocs => Action::FetchAocs { id },
                },
            );
        }
        if self.phase == Phase::Endpoints && self.index < 10 {
            let e = endpoint_at(self.index);
            self.index = self.index + 1;
            if e == EndPoint::Rankings {
                self.awaiting = Awaiting::RankingIds;
            }
            return Ok(Action::FetchEndpoint(e));
        }
        let ghost start_visited = self.visited();
        let ghost t0 = self.titles@.to_set();
        let ghost m0 = self.movies@.to_set();
        let ghost d0 = self.demos@.to_set();
        loop
            invariant
                self.inv(),
                self.awaiting == Awaiting::Nothing,
                self.follow@.len() == 0,
                self.visited() == start_visited,
                self.titles@.to_set() == t0,
                self.movies@.to_set() == m0,
                self.demos@.to_set() == d0,
                self.discover == old(self).discover,
                self.omit_ninja == old(self).omit_ninja,
                old(self).awaiting == Awaiting::Nothing,
                old(self).follow@.len() == 0,
                start_visited == old(self).visited(),
                t0 == old(self).titles@.to_set(),
                m0 == old(self).movies@.to_set(),
                d0 == old(self).demos@.to_set(),
                self.phase == old(self).phase ==> self.index == old(self).index
                    && self.left_in_phase() == old(self).left_in_phase(),
                phase_rank(self.phase) <= phase_rank(old(self).phase),
                self.assembled_directories() == old(self).assembled_directories(),
                self.assembled_rankings() == old(self).assembled_rankings(),
                self.directories@.to_set() == old(self).directories@.to_set(),
                self.rankings@ == old(self).rankings@,
                self.phase == Phase::Endpoints ==> self.index >= 10,
            decreases phase_rank(self.phase),
        {
            match self.phase {
                Phase::Endpoints => {
                    self.phase = Phase::Rankings;
                    self.index = 0;
                },
                Phase::Rankings => {
                    if self.index < self.rankings.len() {
                        let path = String::from_str("ranking/").concat(
                            self.rankings[self.index].as_str(),
                        );
                        proof {
                            let rv = ids_view(self.rankings@);
                            let i = self.index as int;
                            assert(rv.take(i + 1) =~= rv.take(i) + seq![rv[i]]);
                            Seq::lemma_to_set_insert_commutes(rv.take(i), rv[i]);
                            assert(rv.contains(rv[i]));
                            assert(path@ == "ranking/"@ + rv[i]);
                        }
                        self.index = self.index + 1;
                        self.awaiting = Awaiting::Listing;
                        return Ok(Action::AssembleListing { flavor: ListingFlavor::Ranking, path });
                    }
                    proof {
                        let rv = ids_view(self.rankings@);
                        assert(rv.take(self.index as int) =~= rv);
                        assert(self.directories@.take(0) =~= Seq::<Seq<char>>::empty());
                        assert(Seq::<Seq<char>>::empty().to_set() =~= Set::<Seq<char>>::empty());
                    }
                    self.index = 0;
                    if self.discover {
                        self.phase = Phase::Contents;
                    } else {
                        self.directories.sort();
                        self.phase = Phase::Directories;
                    }
                },
                Phase::Contents => {
                    if self.index == 0 {
                        self.index = 1;
                        self.awaiting = Awaiting::Listing;
                        return Ok(
                            Action::AssembleListing {
                                flavor: ListingFlavor::Contents,
                                path: String::from_str("contents"),
                            },
                        );
                    }
                    self.phase = Phase::DirectoryList;
                    self.index = 0;
                },
                Phase::DirectoryList => {
                    if self.index == 0 {
                        self.index = 1;
                        self.awaiting = Awaiting::DirectoryIds;
                        return Ok(Action::FetchDirectoryList);
                    }
                    self.directories.sort();
                    self.phase = Phase::Directories;
                    self.index = 0;
                    proof {
                        assert(self.directories@.take(0) =~= Seq::<Seq<char>>::empty());
                        assert(Seq::<Seq<char>>::empty().to_set() =~= Set::<Seq<char>>::empty());
                    }
                },
                Phase::Directories => {
                    if self.index < self.directories.len() {
                        let path = String::from_str("directory/").concat(
                            self.directories.get(self.index).as_str(),
                        );
                        proof {
                            let dv = self.directories@;
                            let i = self.index as int;
                            assert(dv.take(i + 1) =~= dv.take(i) + seq![dv[i]]);
                            Seq::lemma_to_set_insert_commutes(dv.take(i), dv[i]);
                            assert(dv.contains(dv[i]));
                        }
                        self.index = self.index + 1;
                        self.awaiting = Awaiting::Listing;
                        return Ok(
                            Action::AssembleListing { flavor: ListingFlavor::Directory, path },
                        );
                    }
                    proof {
                        assert(self.directories@.take(self.index as int) =~= self.directories@);
                    }
                    self.titles.sort();
                    self.phase = Phase::Titles;
                    self.index = 0;
                    proof {
                        lemma_prefix_empty(ContentType::Title, self.titles@);
                    }
                },
                Phase::Titles => {
                    if self.index < self.titles.len() {
                        let id = self.titles.get(self.index).clone();
                        proof {
                            lemma_prefix_step(ContentType::Title, self.titles@, self.index as int);
                            lemma_prefix_before(ContentType::Title, self.titles@, self.index as int);
                        }
                        self.index = self.index + 1;
                        self.current = id.clone();
                        self.awaiting = Awaiting::TitleDetail;
                        return Ok(Action::FetchDetail { kind: ContentType::Title, id });
                    }
                    self.movies.sort();
                    self.phase = Phase::Movies;
                    self.index = 0;
                    proof {
                        lemma_prefix_empty(ContentType::Movie, self.movies@);
                        assert(self.visited() =~= start_visited);
                    }
                },
                Phase::Movies => {
                    if self.index < self.movies.len() {
                        let id = self.movies.get(self.index).clone();
                        let ghost before = self.visited();
                        proof {
                            lemma_prefix_step(ContentType::Movie, self.movies@, self.index as int);
                            lemma_prefix_before(ContentType::Movie, self.movies@, self.index as int);
                            lemma_prefix_full(ContentType::Title, self.titles@);
                        }
                        self.index = self.index + 1;
                        self.current = id.clone();
                        proof {
                            assert(self.visited() =~= before.insert((ContentType::Movie, id@)));
                        }
                        return Ok(Action::FetchDetail { kind: ContentType::Movie, id });
                    }
                    self.demos.sort();
                    self.phase = Phase::Demos;
                    self.index = 0;
                    proof {
                        lemma_prefix_empty(ContentType::Demo, self.demos@);
                        assert(self.visited() =~= start_visited);
                    }
                },
                Phase::Demos => {
                    if self.index < self.demos.len() {
                        let id = self.demos.get(self.index).clone();
                        let ghost before = self.visited();
                        proof {
                            lemma_prefix_step(ContentType::Demo, self.demos@, self.index as int);
                            lemma_prefix_before(ContentType::Demo, self.demos@, self.index as int);
                            lemma_prefix_full(ContentType::Title, self.titles@);
                            lemma_prefix_full(ContentType::Movie, self.movies@);
                        }
                        self.index = self.index + 1;
                        self.current = id.clone();
                        if !self.omit_ninja {
                            self.follow.push(FollowUp::EcInfo);
                        }
                        proof {
                            assert(self.visited() =~= before.insert((ContentType::Demo, id@)));
                        }
                        return Ok(Action::FetchDetail { kind: ContentType::Demo, id });
                    }
                    self.phase = Phase::Finished;
                    proof {
                        assert(self.visited() =~= start_visited);
                    }
                },
                Phase::Finished => {
                    proof {
                        lemma_prefix_full(ContentType::Title, self.titles@);
                        lemma_prefix_full(ContentType::Movie, self.movies@);
                        lemma_prefix_full(ContentType::Demo, self.demos@);
                    }
                    return Ok(Action::Finished);
                },
            }
        }
    }
}

impl Walker {
    /// Hands back the ranking identifiers that the `Rankings` endpoint lists.
    pub fn ranking_ids(&mut self, ids: &Vec<String>) -> (r: Result<(), WalkError>)
        requires
            old(self).inv(),
        ensures
            final(self).inv(),
            old(self).spec_awaiting() == Awaiting::RankingIds <==> r is Ok,
            r is Ok ==> final(self).spec_awaiting() == Awaiting::Nothing,
            r is Ok ==> final(self).ranking_list() == ids_view(ids@),
            r is Err ==> r == Err::<(), WalkError>(WalkError::OutOfTurn),
            final(self).visited() == old(self).visited(),
            final(self).known_titles() == old(self).known_titles(),
            final(self).known_movies() == old(self).known_movies(),
            final(self).known_demos() == old(self).known_demos(),
            final(self).follow_ups() == old(self).follow_ups(),
            final(self).spec_phase() == old(self).spec_phase(),
    {
        if self.awaiting != Awaiting::RankingIds {
            return Err(WalkError::OutOfTurn);
        }
        let mut list: Vec<String> = Vec::new();
        let mut i: usize = 0;
        while i < ids.len()
            invariant
                0 <= i <= ids@.len(),
                ids_view(list@) == ids_view(ids@).take(i as int),
            decreases ids@.len() - i,
        {
            let c = ids[i].clone();
            let ghost before = list@;
            list.push(c);
            proof {
                assert(list@ == before.push(c));
                assert(c@ == ids@[i as int]@);
                assert(ids_view(list@) =~= ids_view(before).push(c@));
                assert(ids_view(ids@).take(i + 1) =~= ids_view(ids@).take(i as int).push(c@));
            }
            i = i + 1;
        }
        proof {
            assert(ids_view(ids@).take(i as int) =~= ids_view(ids@));
        }
        self.rankings = list;
        self.awaiting = Awaiting::Nothing;
        Ok(())
    }

    /// Hands back the references of the listing that was assembled last.
    pub fn listed(&mut self, refs: &Vec<ContentRef>) -> (r: Result<(), WalkError>)
        requires
            old(self).inv(),
        ensures
            final(self).inv(),
            old(self).spec_awaiting() != Awaiting::Listing ==> r == Err::<(), WalkError>(
                WalkError::OutOfTurn,
            ),
            old(self).spec_awaiting() == Awaiting::Listing && has_demo(refs@) ==> r == Err::<
                (),
                WalkError,
            >(WalkError::DemoInListing),
            old(self).spec_awaiting() == Awaiting::Listing && !has_demo(refs@) ==> r is Ok,
            r is Ok ==> final(self).spec_awaiting() == Awaiting::Nothing,
            r is Ok && old(self).spec_phase() == Phase::Contents ==> final(self).consulted_root(),
            r is Ok && (old(self).spec_phase() != Phase::Rankings || old(self).discovers()) ==> {
                &&& final(self).known_titles() == old(self).known_titles() + ids_of_kind(
                    refs@,
                    ContentType::Title,
                )
                &&& final(self).known_movies() == old(self).known_movies() + ids_of_kind(
                    refs@,
                    ContentType::Movie,
                )
            },
            r is Err || (old(self).spec_phase() == Phase::Rankings && !old(self).discovers()) ==> {
                &&& final(self).known_titles() == old(self).known_titles()
                &&& final(self).known_movies() == old(self).known_movies()
            },
            final(self).visited() == old(self).visited(),
            final(self).known_demos() == old(self).known_demos(),
            final(self).follow_ups() == old(self).follow_ups(),
            final(self).spec_phase() == old(self).spec_phase(),
    {
        if self.awaiting != Awaiting::Listing {
            return Err(WalkError::OutOfTurn);
        }
        let mut i: usize = 0;
        while i < refs.len()
            invariant
                0 <= i <= refs@.len(),
                forall|j: int| 0 <= j < i ==> refs@[j].kind != ContentType::Demo,
                *self == *old(self),
                old(self).inv(),
                old(self).awaiting == Awaiting::Listing,
            decreases refs@.len() - i,
        {
            if refs[i].kind == ContentType::Demo {
                return Err(WalkError::DemoInListing);
            }
            i = i + 1;
        }
        self.awaiting = Awaiting::Nothing;
        if self.phase == Phase::Contents {
            self.root_listed = true;
        }
        if self.phase == Phase::Rankings && !self.discover {
            return Ok(());
        }
        let ghost t0 = self.titles@.to_set();
        let ghost m0 = self.movies@.to_set();
        let mut i: usize = 0;
        while i < refs.len()
            invariant
                0 <= i <= refs@.len(),
                self.inv(),
                self.phase == old(self).phase,
                self.index == old(self).index,
                self.discover == old(self).discover,
                self.root_listed == (old(self).root_listed || self.phase == Phase::Contents),
                self.directory_list_read == old(self).directory_list_read,
                self.awaiting == Awaiting::Nothing,
                self.follow@ == old(self).follow@,
                self.demos@ == old(self).demos@,
                self.phase != Phase::Titles && self.phase != Phase::Movies && self.phase
                    != Phase::Demos && self.phase != Phase::Finished,
                self.titles@.to_set() == t0 + ids_of_kind(refs@.take(i as int), ContentType::Title),
                self.movies@.to_set() == m0 + ids_of_kind(refs@.take(i as int), ContentType::Movie),
                forall|j: int| 0 <= j < refs@.len() ==> refs@[j].kind != ContentType::Demo,
            decreases refs@.len() - i,
        {
            let ghost tk = refs@.take(i as int);
            let ghost tk1 = refs@.take(i + 1);
            proof {
                assert(tk1 =~= tk.push(refs@[i as int]));
                let c = refs@[i as int];
                assert(ids_of_kind(tk1, c.kind) =~= ids_of_kind(tk, c.kind).insert(c.id@)) by {
                    assert(tk1[i as int] == c);
                    assert forall|x: Seq<char>| ids_of_kind(tk, c.kind).contains(x) implies ids_of_kind(
                        tk1,
                        c.kind,
                    ).contains(x) by {
                        let k = choose|k: int| 0 <= k < tk.len() && tk[k].kind == c.kind && tk[k].id@ == x;
                        assert(tk1[k] == tk[k]);
                    }
                    assert forall|x: Seq<char>| ids_of_kind(tk1, c.kind).contains(x) implies ids_of_kind(
                        tk,
                        c.kind,
                    ).insert(c.id@).contains(x) by {
                        let k = choose|k: int| 0 <= k < tk1.len() && tk1[k].kind == c.kind && tk1[k].id@ == x;
                        if k < i {
                            assert(tk1[k] == tk[k]);
                        }
                    }
                }
                let other = if c.kind == ContentType::Title {
                    ContentType::Movie
                } else {
                    ContentType::Title
                };
                assert(ids_of_kind(tk1, other) =~= ids_of_kind(tk, other)) by {
                    assert forall|x: Seq<char>| ids_of_kind(tk, other).contains(x) implies ids_of_kind(
                        tk1,
                        other,
                    ).contains(x) by {
                        let k = choose|k: int| 0 <= k < tk.len() && tk[k].kind == other && tk[k].id@ == x;
                        assert(tk1[k] == tk[k]);
                    }
                    assert forall|x: Seq<char>| ids_of_kind(tk1, other).contains(x) implies ids_of_kind(
                        tk,
                        other,
                    ).contains(x) by {
                        let k = choose|k: int| 0 <= k < tk1.len() && tk1[k].kind == other && tk1[k].id@ == x;
                        if k < i {
                            assert(tk1[k] == tk[k]);
                        }
                    }
                }
            }
            match refs[i].kind {
                ContentType::Title => {
                    self.titles.add(refs[i].id.as_str());
                },
                _ => {
                    self.movies.add(refs[i].id.as_str());
                },
            }
            proof {
                assert(self.titles@.to_set() =~= t0 + ids_of_kind(tk1, ContentType::Title));
                assert(self.movies@.to_set() =~= m0 + ids_of_kind(tk1, ContentType::Movie));
            }
            i = i + 1;
        }
        proof {
            assert(refs@.take(i as int) =~= refs@);
        }
        Ok(())
    }

    /// Hands back the directory identifiers of the directory list; `None`
    /// where the service answered with an error page, which stands for no
    /// directories.
    pub fn directory_ids(&mut self, ids: Option<&Vec<String>>) -> (r: Result<(), WalkError>)
        requires
            old(self).inv(),
        ensures
            final(self).inv(),
            old(self).spec_awaiting() == Awaiting::DirectoryIds <==> r is Ok,
            r is Err ==> r == Err::<(), WalkError>(WalkError::OutOfTurn),
            r is Ok ==> final(self).spec_awaiting() == Awaiting::Nothing,
            r is Ok ==> final(self).consulted_directory_list(),
            final(self).known_directories() == match (r, ids) {
                (Ok(_), Some(v)) => old(self).known_directories() + ids_view(v@).to_set(),
                _ => old(self).known_directories(),
            },
            final(self).visited() == old(self).visited(),
            final(self).known_titles() == old(self).known_titles(),
            final(self).known_movies() == old(self).known_movies(),
            final(self).known_demos() == old(self).known_demos(),
            final(self).follow_ups() == old(self).follow_ups(),
            final(self).spec_phase() == old(self).spec_phase(),
    {
        if self.awaiting != Awaiting::DirectoryIds {
            return Err(WalkError::OutOfTurn);
        }
        if let Some(v) = ids {
            self.directories.add_all(v);
        }
        self.awaiting = Awaiting::Nothing;
        self.directory_list_read = true;
        Ok(())
    }

    /// Hands back what the title whose detail was fetched last declares:
    /// its demos join the demo frontier, its trailers the movie frontier, and
    /// its follow-up requests are queued.
    pub fn title_detail(&mut self, info: &TitleInfo) -> (r: Result<(), WalkError>)
        requires
            old(self).inv(),
        ensures
            final(self).inv(),
            old(self).spec_awaiting() != Awaiting::TitleDetail ==> r == Err::<(), WalkError>(
                WalkError::OutOfTurn,
            ),
            old(self).spec_awaiting() == Awaiting::TitleDetail && info.demo_available
                && demo_list(*info).len() == 0 ==> r == Err::<(), WalkError>(
                WalkError::MissingDemos,
            ),
            old(self).spec_awaiting() == Awaiting::TitleDetail && !(info.demo_available
                && demo_list(*info).len() == 0) ==> r is Ok,
            r is Ok ==> {
                &&& final(self).spec_awaiting() == Awaiting::Nothing
                &&& final(self).known_movies() == old(self).known_movies() + ids_view(
                    info.movie_ids@,
                ).to_set()
                &&& final(self).known_demos() == old(self).known_demos() + if info.demo_available {
                    demo_list(*info).to_set()
                } else {
                    Set::empty()
                }
                &&& final(self).follow_ups() == title_follow_ups(
                    info.aoc_available,
                    old(self).omits_ninja(),
                )
            },
            r is Err ==> {
                &&& final(self).known_movies() == old(self).known_movies()
                &&& final(self).known_demos() == old(self).known_demos()
                &&& final(self).follow_ups() == old(self).follow_ups()
            },
            final(self).visited() == old(self).visited(),
            final(self).known_titles() == old(self).known_titles(),
            final(self).current_item() == old(self).current_item(),
            final(self).omits_ninja() == old(self).omits_ninja(),
            final(self).spec_phase() == old(self).spec_phase(),
    {
        if self.awaiting != Awaiting::TitleDetail {
            return Err(WalkError::OutOfTurn);
        }
        if info.demo_available {
            match &info.demo_ids {
                Some(v) => {
                    if v.len() == 0 {
                        return Err(WalkError::MissingDemos);
                    }
                    self.demos.add_all(v);
                },
                None => {
                    return Err(WalkError::MissingDemos);
                },
            }
        } else {
            proof {
                assert(self.demos@.to_set() + Set::<Seq<char>>::empty() =~= self.demos@.to_set());
            }
        }
        self.movies.add_all(&info.movie_ids);
        let mut follow: Vec<FollowUp> = Vec::new();
        if info.aoc_available {
            follow.push(FollowUp::Aocs);
        }
        if !self.omit_ninja {
            follow.push(FollowUp::Prices);
            follow.push(FollowUp::EcInfo);
        }
        proof {
            assert(follow@ =~= title_follow_ups(info.aoc_available, self.omit_ninja));
        }
        self.follow = follow;
        self.awaiting = Awaiting::Nothing;
        Ok(())
    }
}

} // verus!
