//! The paginated list assembler: validates each page of an offset-paginated
//! listing against what was requested, gathers the content references, and
//! splices the raw entries of all pages into one merged document that reads
//! as a single unpaginated response.
use vstd::prelude::*;
use vstd::string::*;
use crate::envelope::{close_marker, envelope, split_envelope};
use crate::model::{ContentRef, ContentType, ListingEntry, ListingPage, Locale};
use crate::urls::{listing_address, listing_url};
use crate::text::{decimal, decimal_string, same_text};

verus! {

/// Which listing is being assembled; it decides the checks and what an empty
/// listing leaves behind.
#[derive(Clone, Copy, PartialEq, Eq, Structural, Debug)]
pub enum ListingFlavor {
    /// The root content listing.
    Contents,
    /// The listing of one directory.
    Directory,
    /// The listing of one ranking, whose reported indices restart on every page.
    Ranking,
}

/// Why a listing page was refused: each is a protocol violation by the
/// remote service.
#[derive(Clone, Copy, PartialEq, Eq, Structural, Debug)]
pub enum ListingError {
    /// The page reports another offset than the one requested.
    OffsetMismatch { expected: usize, reported: usize },
    /// The page holds another number of entries than it reports.
    LengthMismatch { expected: usize, found: usize },
    /// The page holds more entries than the whole listing.
    TooManyEntries { total: usize, found: usize },
    /// The page reports another total than the pages before it.
    TotalChanged { expected: usize, reported: usize },
    /// A page of a non-empty listing holds no entry.
    EmptyPage { offset: usize },
    /// The page reaches past the reported total.
    PastTotal { offset: usize, found: usize, total: usize },
    /// The first entry's index is not the offset plus one.
    IndexMismatch { offset: usize },
    /// The raw text lacks the `<contents ...>` ... `</contents>` markers.
    MissingEnvelope,
    /// A page came after the listing was complete.
    AlreadyComplete,
    /// The recorded pages end before the listing is complete.
    Unfinished { offset: usize },
}

/// What an assembler holds, as mathematical values.
pub struct AssemblyView {
    pub offset: nat,
    pub total: nat,
    pub finished: bool,
    pub refs: Seq<(ContentType, Seq<char>)>,
    pub pieces: Seq<Seq<char>>,
}

/// The state before the first page.
pub open spec fn initial_view() -> AssemblyView {
    AssemblyView { offset: 0, total: 0, finished: false, refs: seq![], pieces: seq![] }
}

pub open spec fn entry_ref(e: ListingEntry) -> (ContentType, Seq<char>) {
    (e.kind, e.id@)
}

/// The references that a page's entries hold, in page order.
pub open spec fn page_refs(page: ListingPage) -> Seq<(ContentType, Seq<char>)> {
    page.entries@.map_values(|e: ListingEntry| entry_ref(e))
}

pub open spec fn reported_offset(page: ListingPage) -> nat {
    match page.offset {
        Some(o) => o as nat,
        None => 0,
    }
}

pub open spec fn reported_length(page: ListingPage) -> nat {
    match page.length {
        Some(l) => l as nat,
        None => page.total as nat,
    }
}

/// The opening tag written around the merged entries.
pub open spec fn merged_open_tag(total: nat) -> Seq<char> {
    "<contents length=\""@ + decimal(total) + "\" offset=\"0\" total=\""@ + decimal(total)
        + "\">"@
}

pub open spec fn checks_index(fl: ListingFlavor) -> bool {
    fl != ListingFlavor::Ranking
}

/// An empty directory or ranking listing keeps its raw document, which also
/// carries the directory's or ranking's own record.
pub open spec fn keeps_empty_document(fl: ListingFlavor) -> bool {
    fl != ListingFlavor::Contents
}

/// The effect of one page, with its raw text, on the assembled state.
pub open spec fn step(
    fl: ListingFlavor,
    s: AssemblyView,
    page: ListingPage,
    raw: Seq<char>,
) -> Result<AssemblyView, ListingError> {
    let n = page.entries@.len();
    let total = page.total as nat;
    if s.finished {
        Err(ListingError::AlreadyComplete)
    } else if s.offset == 0 && total == 0 {
        Ok(
            AssemblyView {
                offset: 0,
                total: 0,
                finished: true,
                refs: s.refs,
                pieces: if keeps_empty_document(fl) {
                    seq![raw]
                } else {
                    seq![]
                },
            },
        )
    } else if s.offset != 0 && total != s.total {
        Err(ListingError::TotalChanged { expected: s.total as usize, reported: page.total })
    } else if reported_offset(page) != s.offset {
        Err(
            ListingError::OffsetMismatch {
                expected: s.offset as usize,
                reported: reported_offset(page) as usize,
            },
        )
    } else if n != reported_length(page) {
        Err(
            ListingError::LengthMismatch {
                expected: reported_length(page) as usize,
                found: n as usize,
            },
        )
    } else if n > total {
        Err(ListingError::TooManyEntries { total: page.total, found: n as usize })
    } else if n == 0 {
        Err(ListingError::EmptyPage { offset: s.offset as usize })
    } else if s.offset + n > total {
        Err(
            ListingError::PastTotal {
                offset: s.offset as usize,
                found: n as usize,
                total: page.total,
            },
        )
    } else if checks_index(fl) && page.entries@[0].index@ != decimal(s.offset + 1) {
        Err(ListingError::IndexMismatch { offset: s.offset as usize })
    } else {
        match envelope(raw) {
            None => Err(ListingError::MissingEnvelope),
            Some((head, inner, foot)) => {
                let next = s.offset + n;
                let opening = if s.offset == 0 {
                    seq![head, merged_open_tag(total)]
                } else {
                    seq![]
                };
                let closing = if next == total {
                    seq![close_marker() + foot]
                } else {
                    seq![]
                };
                Ok(
                    AssemblyView {
                        offset: next,
                        total,
                        finished: next == total,
                        refs: s.refs + page_refs(page),
                        pieces: s.pieces + opening + seq![inner] + closing,
                    },
                )
            },
        }
    }
}

/// The assembled state after a sequence of pages, each with its raw text.
pub open spec fn run(fl: ListingFlavor, pages: Seq<(ListingPage, Seq<char>)>) -> Result<
    AssemblyView,
    ListingError,
>
    decreases pages.len(),
{
    if pages.len() == 0 {
        Ok(initial_view())
    } else {
        match run(fl, pages.drop_last()) {
            Ok(s) => step(fl, s, pages.last().0, pages.last().1),
            Err(e) => Err(e),
        }
    }
}

/// The merged document: each piece followed by a line break.
pub open spec fn joined(pieces: Seq<Seq<char>>) -> Seq<char>
    decreases pieces.len(),
{
    if pieces.len() == 0 {
        seq![]
    } else {
        joined(pieces.drop_last()) + pieces.last() + "\n"@
    }
}

/// The state that every assembler keeps.
pub open spec fn consistent(s: AssemblyView) -> bool {
    &&& s.offset <= s.total
    &&& s.refs.len() == s.offset
    &&& s.finished ==> s.offset == s.total
    &&& !s.finished ==> s.offset < s.total || s.offset == 0
    &&& !s.finished && s.offset == 0 ==> s.pieces.len() == 0
    &&& s.total <= usize::MAX
}

/// Reassembles one paginated listing from its pages.
pub struct ListingAssembler {
    flavor: ListingFlavor,
    offset: usize,
    total: usize,
    finished: bool,
    refs: Vec<ContentRef>,
    pieces: Vec<String>,
}

pub open spec fn ref_view(r: ContentRef) -> (ContentType, Seq<char>) {
    (r.kind, r.id@)
}

impl View for ListingAssembler {
    type V = AssemblyView;

    closed spec fn view(&self) -> AssemblyView {
        AssemblyView {
            offset: self.offset as nat,
            total: self.total as nat,
            finished: self.finished,
            refs: self.refs@.map_values(|r: ContentRef| ref_view(r)),
            pieces: self.pieces@.map_values(|p: String| p@),
        }
    }
}

proof fn lemma_step_consistent(
    fl: ListingFlavor,
    s: AssemblyView,
    page: ListingPage,
    raw: Seq<char>,
)
    requires
        consistent(s),
    ensures
        step(fl, s, page, raw) is Ok ==> consistent(step(fl, s, page, raw)->Ok_0),
{
}

impl ListingAssembler {
    pub closed spec fn spec_flavor(&self) -> ListingFlavor {
        self.flavor
    }

    /// An assembler that has seen no page yet.
    pub fn new(flavor: ListingFlavor) -> (r: ListingAssembler)
        ensures
            r@ == initial_view(),
            r.spec_flavor() == flavor,
            r.inv(),
    {
        let r = ListingAssembler {
            flavor,
            offset: 0,
            total: 0,
            finished: false,
            refs: Vec::new(),
            pieces: Vec::new(),
        };
        proof {
            assert(r@.refs =~= seq![]);
            assert(r@.pieces =~= seq![]);
        }
        r
    }

    pub closed spec fn inv(&self) -> bool {
        consistent(self@)
    }

    /// The offset of the next page to request.
    pub fn next_offset(&self) -> (r: usize)
        ensures
            r == self@.offset,
    {
        self.offset
    }

    /// The address of the next page of the listing below `path`, or none
    /// once the listing is complete.
    pub fn next_page_url(&self, locale: &Locale, path: &str) -> (r: Option<String>)
        ensures
            self@.finished <==> r is None,
            r is Some ==> r->0@ == listing_address(
                locale.region@,
                locale.language@,
                path@,
                self@.offset,
            ),
    {
        if self.finished {
            None
        } else {
            Some(listing_url(locale, path, self.offset))
        }
    }

    /// Whether every entry of the listing has arrived.
    pub fn is_complete(&self) -> (r: bool)
        ensures
            r == self@.finished,
    {
        self.finished
    }

    /// The references gathered so far, in listing order.
    pub fn references(&self) -> (r: &Vec<ContentRef>)
        ensures
            r@.map_values(|c: ContentRef| ref_view(c)) == self@.refs,
    {
        &self.refs
    }

    /// Gives up the assembler for the references it gathered.
    pub fn into_references(self) -> (r: Vec<ContentRef>)
        ensures
            r@.map_values(|c: ContentRef| ref_view(c)) == self@.refs,
    {
        self.refs
    }

    /// Takes one page, with the raw text it was parsed from.
    pub fn accept(&mut self, page: &ListingPage, raw: &str) -> (r: Result<(), ListingError>)
        requires
            old(self).inv(),
        ensures
            final(self).inv(),
            final(self).spec_flavor() == old(self).spec_flavor(),
            match step(old(self).spec_flavor(), old(self)@, *page, raw@) {
                Ok(v) => r is Ok && final(self)@ == v,
                Err(e) => r == Err::<(), ListingError>(e) && final(self)@ == old(self)@,
            },
    {
        proof {
            lemma_step_consistent(self.flavor, self@, *page, raw@);
        }
        let n = page.entries.len();
        let total = page.total;
        if self.finished {
            return Err(ListingError::AlreadyComplete);
        }
        if self.offset == 0 && total == 0 {
            self.finished = true;
            self.total = 0;
            if self.flavor != ListingFlavor::Contents {
                self.pieces.push(String::from_str(raw));
            }
            proof {
                if self.flavor != ListingFlavor::Contents {
                    assert(self@.pieces =~= seq![raw@]);
                } else {
                    assert(self@.pieces =~= seq![]);
                }
            }
            return Ok(());
        }
        if self.offset != 0 && total != self.total {
            return Err(ListingError::TotalChanged { expected: self.total, reported: total });
        }
        let reported = match page.offset {
            Some(o) => o,
            None => 0,
        };
        if reported != self.offset {
            return Err(ListingError::OffsetMismatch { expected: self.offset, reported });
        }
        let expected_len = match page.length {
            Some(l) => l,
            None => total,
        };
        if n != expected_len {
            return Err(ListingError::LengthMismatch { expected: expected_len, found: n });
        }
        if n > total {
            return Err(ListingError::TooManyEntries { total, found: n });
        }
        if n == 0 {
            return Err(ListingError::EmptyPage { offset: self.offset });
        }
        if n > total - self.offset {
            return Err(ListingError::PastTotal { offset: self.offset, found: n, total });
        }
        if self.flavor != ListingFlavor::Ranking {
            let want = decimal_string(self.offset + 1);
            if !same_text(page.entries[0].index.as_str(), want.as_str()) {
                return Err(ListingError::IndexMismatch { offset: self.offset });
            }
        }
        let (head, inner, foot) = match split_envelope(raw) {
            Some(parts) => parts,
            None => {
                return Err(ListingError::MissingEnvelope);
            },
        };
        let ghost old_view = self@;
        let next = self.offset + n;
        let ghost mut added: Seq<Seq<char>> = seq![];
        if self.offset == 0 {
            let h = String::from_str(head);
            self.pieces.push(h);
            let t = decimal_string(total);
            let tag = String::from_str("<contents length=\"").concat(t.as_str()).concat(
                "\" offset=\"0\" total=\"",
            ).concat(t.as_str()).concat("\">");
            proof {
                assert(tag@ == merged_open_tag(total as nat));
            }
            self.pieces.push(tag);
            proof {
                added = seq![head@, merged_open_tag(total as nat)];
            }
        }
        proof {
            assert(self.pieces@.map_values(|p: String| p@) =~= old_view.pieces + added);
        }
        self.pieces.push(String::from_str(inner));
        proof {
            added = added.push(inner@);
            assert(self.pieces@.map_values(|p: String| p@) =~= old_view.pieces + added);
        }
        if next == total {
            self.pieces.push(String::from_str("</contents>").concat(foot));
            proof {
                added = added.push(close_marker() + foot@);
                assert(self.pieces@.map_values(|p: String| p@) =~= old_view.pieces + added);
            }
        }
        let ghost mid_pieces = self.pieces@;
        let ghost fl = self.flavor;
        let mut i: usize = 0;
        while i < n
            invariant
                0 <= i <= n,
                n == page.entries@.len(),
                self.pieces@ == mid_pieces,
                self.flavor == fl,
                self.refs@.map_values(|c: ContentRef| ref_view(c)) == old_view.refs + page_refs(
                    *page,
                ).take(i as int),
            decreases n - i,
        {
            let e = &page.entries[i];
            let c = ContentRef { kind: e.kind, id: e.id.clone() };
            let ghost before = self.refs@;
            self.refs.push(c);
            proof {
                assert(self.refs@ == before.push(c));
                assert(ref_view(c) == entry_ref(page.entries@[i as int]));
                assert(self.refs@.map_values(|c: ContentRef| ref_view(c)) =~= before.map_values(
                    |c: ContentRef| ref_view(c),
                ).push(ref_view(c)));
                assert(page_refs(*page).take(i + 1) =~= page_refs(*page).take(i as int).push(
                    entry_ref(page.entries@[i as int]),
                ));
                assert(self.refs@.map_values(|c: ContentRef| ref_view(c)) =~= old_view.refs
                    + page_refs(*page).take(i + 1));
            }
            i = i + 1;
        }
        self.offset = next;
        self.total = total;
        self.finished = next == total;
        proof {
            assert(page_refs(*page).take(n as int) =~= page_refs(*page));
            let opening = if old_view.offset == 0 {
                seq![head@, merged_open_tag(total as nat)]
            } else {
                seq![]
            };
            let closing = if next == total {
                seq![close_marker() + foot@]
            } else {
                seq![]
            };
            assert(added =~= opening + seq![inner@] + closing);
            assert(self@.pieces =~= old_view.pieces + opening + seq![inner@] + closing);
        }
        Ok(())
    }

    /// The merged document: every retained piece followed by a line break.
    pub fn document(&self) -> (r: String)
        ensures
            r@ == joined(self@.pieces),
    {
        let mut doc = String::new();
        let mut i: usize = 0;
        while i < self.pieces.len()
            invariant
                0 <= i <= self.pieces@.len(),
                doc@ == joined(self@.pieces.take(i as int)),
            decreases self.pieces@.len() - i,
        {
            proof {
                assert(self@.pieces.take(i + 1).drop_last() =~= self@.pieces.take(i as int));
            }
            doc = doc.concat(self.pieces[i].as_str()).concat("\n");
            i = i + 1;
        }
        proof {
            assert(self@.pieces.take(i as int) =~= self@.pieces);
        }
        doc
    }
}

/// The references of a sequence of pages, in page order; a page that
/// reports an empty listing contributes none.
pub open spec fn all_refs(pages: Seq<(ListingPage, Seq<char>)>) -> Seq<(ContentType, Seq<char>)>
    decreases pages.len(),
{
    if pages.len() == 0 {
        seq![]
    } else if pages.last().0.total == 0 {
        all_refs(pages.drop_last())
    } else {
        all_refs(pages.drop_last()) + page_refs(pages.last().0)
    }
}

/// Every page of a non-empty listing holds entries, and, where indices are
/// checked, its first entry's index is one past the entries before it.
pub open spec fn starts_in_order(fl: ListingFlavor, pages: Seq<(ListingPage, Seq<char>)>) -> bool {
    forall|k: int|
        0 <= k < pages.len() && pages[k].0.total != 0 ==> {
            &&& pages[k].0.entries@.len() > 0
            &&& checks_index(fl) ==> pages[k].0.entries@[0].index@ == decimal(
                all_refs(pages.take(k)).len() + 1,
            )
        }
}

proof fn lemma_run_invariant(fl: ListingFlavor, pages: Seq<(ListingPage, Seq<char>)>)
    requires
        run(fl, pages) is Ok,
    ensures
        consistent(run(fl, pages)->Ok_0),
        run(fl, pages)->Ok_0.refs == all_refs(pages),
        starts_in_order(fl, pages),
    decreases pages.len(),
{
    if pages.len() > 0 {
        let prev = pages.drop_last();
        lemma_run_invariant(fl, prev);
        let s = run(fl, prev)->Ok_0;
        lemma_step_consistent(fl, s, pages.last().0, pages.last().1);
        assert(pages.take(pages.len() - 1) =~= prev);
        assert forall|k: int| 0 <= k < pages.len() && pages[k].0.total != 0 implies {
            &&& pages[k].0.entries@.len() > 0
            &&& checks_index(fl) ==> pages[k].0.entries@[0].index@ == decimal(
                all_refs(pages.take(k)).len() + 1,
            )
        } by {
            if k < prev.len() {
                assert(pages.take(k) =~= prev.take(k));
                assert(pages[k] == prev[k]);
            } else {
                assert(pages.take(k) =~= prev);
            }
        }
    }
}

/// A listing that completes holds exactly its reported total of references:
/// those of its pages in page order, where every page of a non-empty listing
/// begins at the index that follows the entries before it.
pub proof fn lemma_complete_listing(fl: ListingFlavor, pages: Seq<(ListingPage, Seq<char>)>)
    requires
        run(fl, pages) is Ok,
        run(fl, pages)->Ok_0.finished,
    ensures
        run(fl, pages)->Ok_0.refs.len() == run(fl, pages)->Ok_0.total,
        run(fl, pages)->Ok_0.refs == all_refs(pages),
        starts_in_order(fl, pages),
{
    lemma_run_invariant(fl, pages);
}

/// A listing whose first page reports a total of zero completes on that page
/// with no references, and the root listing then leaves no document behind.
pub proof fn lemma_empty_listing(fl: ListingFlavor, page: ListingPage, raw: Seq<char>)
    requires
        page.total == 0,
    ensures
        step(fl, initial_view(), page, raw) is Ok,
        step(fl, initial_view(), page, raw)->Ok_0.finished,
        step(fl, initial_view(), page, raw)->Ok_0.refs.len() == 0,
        fl == ListingFlavor::Contents ==> step(fl, initial_view(), page, raw)->Ok_0.pieces.len()
            == 0,
{
}

/// Every accepted page either completes the listing or moves the offset
/// forward, so no sequence of accepted pages repeats a request.
pub proof fn lemma_step_progress(
    fl: ListingFlavor,
    s: AssemblyView,
    page: ListingPage,
    raw: Seq<char>,
)
    requires
        step(fl, s, page, raw) is Ok,
    ensures
        step(fl, s, page, raw)->Ok_0.finished || step(fl, s, page, raw)->Ok_0.offset > s.offset,
{
}

/// A page of a non-empty listing that reports another offset than the one
/// requested is refused, and with `OffsetMismatch` when its total agrees with
/// the pages before it.
pub proof fn lemma_offset_mismatch(
    fl: ListingFlavor,
    s: AssemblyView,
    page: ListingPage,
    raw: Seq<char>,
)
    requires
        !s.finished,
        page.total != 0,
        reported_offset(page) != s.offset,
    ensures
        step(fl, s, page, raw) is Err,
        s.offset == 0 || page.total == s.total ==> step(fl, s, page, raw) == Err::<
            AssemblyView,
            ListingError,
        >(
            ListingError::OffsetMismatch {
                expected: s.offset as usize,
                reported: reported_offset(page) as usize,
            },
        ),
{
}

/// The merged document and references of a listing, rebuilt from its
/// recorded pages and their raw texts.
pub open spec fn assembled(fl: ListingFlavor, pages: Seq<(ListingPage, Seq<char>)>) -> Result<
    (Seq<char>, Seq<(ContentType, Seq<char>)>),
    ListingError,
> {
    match run(fl, pages) {
        Ok(v) => if v.finished {
            Ok((joined(v.pieces), v.refs))
        } else {
            Err(ListingError::Unfinished { offset: v.offset as usize })
        },
        Err(e) => Err(e),
    }
}

pub open spec fn recorded_view(pages: Seq<(ListingPage, String)>) -> Seq<(ListingPage, Seq<char>)> {
    pages.map_values(|p: (ListingPage, String)| (p.0, p.1@))
}

/// Reassembles a listing from recorded pages: the same pages always give the
/// same document.
pub fn assemble(flavor: ListingFlavor, pages: &Vec<(ListingPage, String)>) -> (r: Result<
    (String, Vec<ContentRef>),
    ListingError,
>)
    ensures
        match assembled(flavor, recorded_view(pages@)) {
            Ok((doc, refs)) => r is Ok && r->Ok_0.0@ == doc && r->Ok_0.1@.map_values(
                |c: ContentRef| ref_view(c),
            ) == refs,
            Err(e) => r == Err::<(String, Vec<ContentRef>), ListingError>(e),
        },
{
    let mut a = ListingAssembler::new(flavor);
    let mut i: usize = 0;
    while i < pages.len()
        invariant
            0 <= i <= pages@.len(),
            a.inv(),
            a.spec_flavor() == flavor,
            run(flavor, recorded_view(pages@).take(i as int)) == Ok::<AssemblyView, ListingError>(
                a@,
            ),
        decreases pages@.len() - i,
    {
        proof {
            assert(recorded_view(pages@).take(i + 1).drop_last() =~= recorded_view(pages@).take(
                i as int,
            ));
        }
        let res = a.accept(&pages[i].0, pages[i].1.as_str());
        if let Err(e) = res {
            proof {
                lemma_run_err_sticky(flavor, recorded_view(pages@), i as int + 1);
            }
            return Err(e);
        }
        i = i + 1;
    }
    proof {
        assert(recorded_view(pages@).take(i as int) =~= recorded_view(pages@));
    }
    if !a.is_complete() {
        return Err(ListingError::Unfinished { offset: a.next_offset() });
    }
    let doc = a.document();
    let refs = a.into_references();
    Ok((doc, refs))
}

proof fn lemma_run_err_sticky(fl: ListingFlavor, pages: Seq<(ListingPage, Seq<char>)>, k: int)
    requires
        0 < k <= pages.len(),
        run(fl, pages.take(k)) is Err,
    ensures
        run(fl, pages) == run(fl, pages.take(k)),
    decreases pages.len() - k,
{
    if k < pages.len() {
        assert(pages.take(k + 1).drop_last() =~= pages.take(k));
        lemma_run_err_sticky(fl, pages, k + 1);
    } else {
        assert(pages.take(k) =~= pages);
    }
}

/// The number of entries on the pages before page `k`.
pub open spec fn entries_before(pages: Seq<(ListingPage, Seq<char>)>, k: int) -> nat
    decreases k,
{
    if k <= 0 {
        0
    } else {
        entries_before(pages, k - 1) + pages[k - 1].0.entries@.len()
    }
}

/// The pages of a listing of `total` entries as a well-behaved service sends
/// them: each reports the total, the offset it was requested at and as many
/// entries as it holds, at least one; each holds the envelope markers; where
/// indices are checked, its first index follows the entries before it; and
/// the pages hold `total` entries in all.
#[verifier::opaque]
pub open spec fn consistent_pages(
    fl: ListingFlavor,
    pages: Seq<(ListingPage, Seq<char>)>,
    total: nat,
) -> bool {
    &&& total > 0
    &&& entries_before(pages, pages.len() as int) == total
    &&& forall|k: int|
        0 <= k < pages.len() ==> {
            let p = #[trigger] pages[k];
            &&& p.0.total == total
            &&& reported_offset(p.0) == entries_before(pages, k)
            &&& reported_length(p.0) == p.0.entries@.len()
            &&& p.0.entries@.len() > 0
            &&& checks_index(fl) ==> p.0.entries@[0].index@ == decimal(
                entries_before(pages, k) + 1,
            )
            &&& envelope(p.1) is Some
        }
}

/// The text before a page's envelope.
pub open spec fn envelope_head(raw: Seq<char>) -> Seq<char> {
    match envelope(raw) {
        Some((head, _, _)) => head,
        None => seq![],
    }
}

/// The text between a page's envelope tags.
pub open spec fn envelope_inner(raw: Seq<char>) -> Seq<char> {
    match envelope(raw) {
        Some((_, inner, _)) => inner,
        None => seq![],
    }
}

/// The text of a page from its closing `</contents>` tag on.
pub open spec fn envelope_foot(raw: Seq<char>) -> Seq<char> {
    match envelope(raw) {
        Some((_, _, foot)) => close_marker() + foot,
        None => seq![],
    }
}

/// The text between the envelope tags of each page, in page order.
pub open spec fn inner_texts(pages: Seq<(ListingPage, Seq<char>)>) -> Seq<Seq<char>> {
    pages.map_values(|p: (ListingPage, Seq<char>)| envelope_inner(p.1))
}

/// The merged pieces of a complete listing: the first page's text before
/// its envelope, one synthetic opening tag with the total, every page's
/// entries in order, and the last page's text from its closing tag on.
pub open spec fn merged_pieces(pages: Seq<(ListingPage, Seq<char>)>, total: nat) -> Seq<Seq<char>> {
    seq![envelope_head(pages[0].1), merged_open_tag(total)] + inner_texts(pages) + seq![
        envelope_foot(pages.last().1),
    ]
}

proof fn lemma_entries_before_grows(pages: Seq<(ListingPage, Seq<char>)>, k: int, m: int)
    requires
        0 <= k <= m <= pages.len(),
        forall|j: int| 0 <= j < pages.len() ==> (#[trigger] pages[j]).0.entries@.len() > 0,
    ensures
        entries_before(pages, k) <= entries_before(pages, m),
        k < m ==> entries_before(pages, k) < entries_before(pages, m),
    decreases m - k,
{
    if k < m {
        lemma_entries_before_grows(pages, k, m - 1);
        assert(pages[m - 1].0.entries@.len() > 0);
    }
}

proof fn lemma_good_step(
    fl: ListingFlavor,
    s: AssemblyView,
    page: ListingPage,
    raw: Seq<char>,
    total: nat,
)
    requires
        !s.finished,
        total > 0,
        page.total == total,
        s.offset == 0 || s.total == total,
        reported_offset(page) == s.offset,
        reported_length(page) == page.entries@.len(),
        page.entries@.len() > 0,
        s.offset + page.entries@.len() <= total,
        checks_index(fl) ==> page.entries@[0].index@ == decimal(s.offset + 1),
        envelope(raw) is Some,
    ensures
        step(fl, s, page, raw) == Ok::<AssemblyView, ListingError>(
            AssemblyView {
                offset: s.offset + page.entries@.len(),
                total,
                finished: s.offset + page.entries@.len() == total,
                refs: s.refs + page_refs(page),
                pieces: s.pieces + (if s.offset == 0 {
                    seq![envelope_head(raw), merged_open_tag(total)]
                } else {
                    seq![]
                }) + seq![envelope_inner(raw)] + (if s.offset + page.entries@.len() == total {
                    seq![envelope_foot(raw)]
                } else {
                    seq![]
                }),
            },
        ),
{
}

proof fn lemma_page_at(
    fl: ListingFlavor,
    pages: Seq<(ListingPage, Seq<char>)>,
    total: nat,
    k: int,
)
    requires
        consistent_pages(fl, pages, total),
        0 <= k < pages.len(),
    ensures
        pages[k].0.total == total,
        reported_offset(pages[k].0) == entries_before(pages, k),
        reported_length(pages[k].0) == pages[k].0.entries@.len(),
        pages[k].0.entries@.len() > 0,
        checks_index(fl) ==> pages[k].0.entries@[0].index@ == decimal(entries_before(pages, k) + 1),
        envelope(pages[k].1) is Some,
{
    reveal(consistent_pages);
}

proof fn lemma_pages_sum(fl: ListingFlavor, pages: Seq<(ListingPage, Seq<char>)>, total: nat)
    requires
        consistent_pages(fl, pages, total),
    ensures
        total > 0,
        pages.len() > 0,
        entries_before(pages, pages.len() as int) == total,
        forall|j: int| 0 <= j < pages.len() ==> (#[trigger] pages[j]).0.entries@.len() > 0,
{
    reveal(consistent_pages);
    if pages.len() == 0 {
        assert(entries_before(pages, 0) == 0);
    }
}

proof fn lemma_consistent_prefix(
    fl: ListingFlavor,
    pages: Seq<(ListingPage, Seq<char>)>,
    total: nat,
    k: int,
)
    requires
        consistent_pages(fl, pages, total),
        0 <= k <= pages.len(),
    ensures
        run(fl, pages.take(k)) is Ok,
        run(fl, pages.take(k))->Ok_0.offset == entries_before(pages, k),
        run(fl, pages.take(k))->Ok_0.refs == all_refs(pages.take(k)),
        k > 0 ==> run(fl, pages.take(k))->Ok_0.total == total,
        run(fl, pages.take(k))->Ok_0.finished == (k > 0 && entries_before(pages, k) == total),
        run(fl, pages.take(k))->Ok_0.pieces == prefix_pieces(pages, total, k, run(fl, pages.take(k))->Ok_0.finished),
    decreases k,
{
    lemma_pages_sum(fl, pages, total);
    if k == 0 {
        assert(pages.take(0) =~= Seq::<(ListingPage, Seq<char>)>::empty());
    } else {
        lemma_consistent_prefix(fl, pages, total, k - 1);
        let prev = pages.take(k - 1);
        let cur = pages.take(k);
        let p = pages[k - 1];
        assert(cur.drop_last() =~= prev);
        assert(cur.last() == p);
        let sp = run(fl, prev)->Ok_0;
        assert(run(fl, cur) == step(fl, sp, p.0, p.1));
        lemma_entries_before_grows(pages, k, pages.len() as int);
        lemma_entries_before_grows(pages, k - 1, k);
        lemma_page_at(fl, pages, total, k - 1);
        lemma_good_step(fl, sp, p.0, p.1, total);
        assert(all_refs(cur) == all_refs(prev) + page_refs(p.0));
        lemma_prefix_pieces_step(pages, total, k, sp.pieces, sp.offset == 0, sp.finished,
            run(fl, cur)->Ok_0.finished);
    }
}

/// The merged pieces after the first `k` pages of a consistent listing.
pub open spec fn prefix_pieces(pages: Seq<(ListingPage, Seq<char>)>, total: nat, k: int, finished: bool) -> Seq<Seq<char>> {
    if k == 0 {
        Seq::<Seq<char>>::empty()
    } else {
        seq![envelope_head(pages[0].1), merged_open_tag(total)] + inner_texts(pages.take(k)) + if finished {
            seq![envelope_foot(pages[k - 1].1)]
        } else {
            Seq::<Seq<char>>::empty()
        }
    }
}

proof fn lemma_prefix_pieces_step(
    pages: Seq<(ListingPage, Seq<char>)>,
    total: nat,
    k: int,
    prev: Seq<Seq<char>>,
    first: bool,
    prev_finished: bool,
    finished: bool,
)
    requires
        0 < k <= pages.len(),
        first == (k == 1),
        !prev_finished,
        prev == prefix_pieces(pages, total, k - 1, prev_finished),
    ensures
        prev + (if first {
            seq![envelope_head(pages[k - 1].1), merged_open_tag(total)]
        } else {
            seq![]
        }) + seq![envelope_inner(pages[k - 1].1)] + (if finished {
            seq![envelope_foot(pages[k - 1].1)]
        } else {
            seq![]
        }) == prefix_pieces(pages, total, k, finished),
{
    let p = pages[k - 1];
    assert(pages.take(k).drop_last() =~= pages.take(k - 1));
    assert(inner_texts(pages.take(k)) =~= inner_texts(pages.take(k - 1)).push(envelope_inner(p.1)));
    if k == 1 {
        assert(inner_texts(pages.take(0)) =~= Seq::<Seq<char>>::empty());
    }
    let lhs = prev + (if first {
        seq![envelope_head(p.1), merged_open_tag(total)]
    } else {
        seq![]
    }) + seq![envelope_inner(p.1)] + (if finished {
        seq![envelope_foot(p.1)]
    } else {
        seq![]
    });
    assert(lhs =~= prefix_pieces(pages, total, k, finished));
}

/// Pages that a well-behaved service sends for a listing are all accepted,
/// and the listing completes on the last of them with exactly its total of
/// references, those of the pages in request order, and the merged document
/// that a single unpaginated response would be.
pub proof fn lemma_consistent_pages_complete(
    fl: ListingFlavor,
    pages: Seq<(ListingPage, Seq<char>)>,
    total: nat,
)
    requires
        consistent_pages(fl, pages, total),
    ensures
        run(fl, pages) is Ok,
        run(fl, pages)->Ok_0.finished,
        run(fl, pages)->Ok_0.refs.len() == total,
        run(fl, pages)->Ok_0.refs == all_refs(pages),
        run(fl, pages)->Ok_0.pieces == merged_pieces(pages, total),
        assembled(fl, pages) == Ok::<(Seq<char>, Seq<(ContentType, Seq<char>)>), ListingError>(
            (joined(merged_pieces(pages, total)), all_refs(pages)),
        ),
        forall|k: int|
            0 <= k < pages.len() - 1 ==> !(#[trigger] run(fl, pages.take(k + 1))->Ok_0.finished),
{
    lemma_pages_sum(fl, pages, total);
    lemma_consistent_prefix(fl, pages, total, pages.len() as int);
    assert(pages.take(pages.len() as int) =~= pages);
    lemma_complete_listing(fl, pages);
    assert(pages[pages.len() - 1] == pages.last());
    assert(inner_texts(pages.take(pages.len() as int)) == inner_texts(pages));
    assert forall|k: int| 0 <= k < pages.len() - 1 implies !(#[trigger] run(
        fl,
        pages.take(k + 1),
    )->Ok_0.finished) by {
        lemma_consistent_prefix(fl, pages, total, k + 1);
        lemma_entries_before_grows(pages, k + 1, pages.len() as int);
    }
}

} // verus!
