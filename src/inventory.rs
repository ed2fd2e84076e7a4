//! Devices of the inventory, the access-point filter, and the paging of the
//! device collection.
use vstd::prelude::*;

verus! {

/// One device of the inventory, as the device listing reports it.
#[derive(Debug, Clone)]
pub struct Device {
    pub id: u64,
    pub hostname: Option<String>,
    pub device_function: String,
    pub serial_number: Option<String>,
    pub product_type: Option<String>,
    pub connected: bool,
    pub location_id: Option<u64>,
}

/// Whether a device is an access point: its function tag reads `AP`.
pub open spec fn is_ap(d: Device) -> bool {
    d.device_function@ == "AP"@
}

/// The access points among `ds`, in their order.
pub open spec fn aps_of(ds: Seq<Device>) -> Seq<Device>
    decreases ds.len(),
{
    if ds.len() == 0 {
        Seq::empty()
    } else if is_ap(ds.last()) {
        aps_of(ds.drop_last()).push(ds.last())
    } else {
        aps_of(ds.drop_last())
    }
}

/// All the records of a run of pages, page after page.
pub open spec fn flat(pages: Seq<Seq<Device>>) -> Seq<Device>
    decreases pages.len(),
{
    if pages.len() == 0 {
        Seq::empty()
    } else {
        flat(pages.drop_last()) + pages.last()
    }
}

/// Whether the listing is complete after `pages`: the last page fetched
/// held fewer records than were asked for.
pub open spec fn finished(pages: Seq<Seq<Device>>, limit: u32) -> bool {
    pages.len() > 0 && pages.last().len() < limit
}

/// Whether every page before the last of `pages` was full.
pub open spec fn all_full_but_last(pages: Seq<Seq<Device>>, limit: u32) -> bool {
    forall|i: int| 0 <= i < pages.len() - 1 ==> (#[trigger] pages[i]).len() >= limit
}

/// Whether `d` is an access point.
pub fn is_access_point(d: &Device) -> (r: bool)
    ensures
        r == is_ap(*d),
{
    let ap = String::from_str("AP");
    d.device_function == ap
}

/// The access points among `records`, in the order they came in.
pub fn access_points(records: Vec<Device>) -> (r: Vec<Device>)
    ensures
        r@ == aps_of(records@),
{
    let ghost orig = records@;
    let n = records.len();
    let mut rest = records;
    let mut out: Vec<Device> = Vec::new();
    let mut i: usize = 0;
    while rest.len() > 0
        invariant
            i <= orig.len(),
            n == orig.len(),
            rest@ == orig.skip(i as int),
            out@ == aps_of(orig.take(i as int)),
        decreases rest.len(),
    {
        let d = rest.remove(0);
        assert(orig.take(i + 1).drop_last() =~= orig.take(i as int));
        assert(rest@ =~= orig.skip(i + 1));
        if is_access_point(&d) {
            out.push(d);
        }
        i = i + 1;
    }
    assert(orig.take(i as int) =~= orig);
    out
}

/// The access points of two runs of records are those of each, in turn.
pub proof fn lemma_aps_of_concat(a: Seq<Device>, b: Seq<Device>)
    ensures
        aps_of(a + b) == aps_of(a) + aps_of(b),
    decreases b.len(),
{
    if b.len() == 0 {
        assert(a + b =~= a);
        assert(aps_of(a) + aps_of(b) =~= aps_of(a));
    } else {
        lemma_aps_of_concat(a, b.drop_last());
        assert((a + b).drop_last() =~= a + b.drop_last());
        assert((a + b).last() == b.last());
        if is_ap(b.last()) {
            assert(aps_of(a + b) =~= aps_of(a) + aps_of(b));
        } else {
            assert(aps_of(a + b) =~= aps_of(a) + aps_of(b));
        }
    }
}

/// The access-point filter keeps only access points, and keeps every one.
pub proof fn lemma_aps_of_exact(ds: Seq<Device>)
    ensures
        forall|i: int| 0 <= i < aps_of(ds).len() ==> is_ap(#[trigger] aps_of(ds)[i]),
        forall|i: int| 0 <= i < ds.len() && is_ap(#[trigger] ds[i]) ==> aps_of(ds).contains(ds[i]),
        aps_of(ds).len() <= ds.len(),
    decreases ds.len(),
{
    if ds.len() > 0 {
        let p = ds.drop_last();
        lemma_aps_of_exact(p);
        assert forall|i: int| 0 <= i < ds.len() && is_ap(#[trigger] ds[i]) implies aps_of(
            ds,
        ).contains(ds[i]) by {
            if i < ds.len() - 1 {
                assert(p[i] == ds[i]);
                let j = choose|j: int| 0 <= j < aps_of(p).len() && aps_of(p)[j] == p[i];
                assert(aps_of(ds)[j] == ds[i]);
            } else {
                assert(aps_of(ds)[aps_of(ds).len() - 1] == ds[i]);
            }
        }
    }
}

/// A request for one page of the device listing.
#[derive(Debug, Clone, Copy, PartialEq, Eq, Structural)]
pub struct PageRequest {
    /// The page number, from 1.
    pub page: u64,
    /// The number of records asked for.
    pub limit: u32,
}

/// The paging of the device collection: which page to ask for next, when
/// the listing is complete, and the access points gathered so far.
pub struct Pager {
    page: u64,
    page_size: u32,
    done: bool,
    aps: Vec<Device>,
    pages: Ghost<Seq<Seq<Device>>>,
}

impl Pager {
    /// The pages received so far, in order.
    pub closed spec fn pages_seen(&self) -> Seq<Seq<Device>> {
        self.pages@
    }

    /// The number of records asked for on each page.
    pub closed spec fn limit(&self) -> u32 {
        self.page_size
    }

    pub closed spec fn wf(&self) -> bool {
        &&& self.page == self.pages@.len() + 1
        &&& self.done == finished(self.pages@, self.page_size)
        &&& all_full_but_last(self.pages@, self.page_size)
        &&& self.aps@ == aps_of(flat(self.pages@))
    }

    /// A pager about to ask for the first page.
    pub fn new(page_size: u32) -> (r: Pager)
        ensures
            r.wf(),
            r.pages_seen() == Seq::<Seq<Device>>::empty(),
            r.limit() == page_size,
    {
        let r = Pager {
            page: 1,
            page_size,
            done: false,
            aps: Vec::new(),
            pages: Ghost(Seq::empty()),
        };
        assert(r.aps@ =~= aps_of(flat(r.pages@)));
        r
    }

    /// Whether the listing is complete.
    pub fn is_done(&self) -> (r: bool)
        requires
            self.wf(),
        ensures
            r == finished(self.pages_seen(), self.limit()),
    {
        self.done
    }

    /// The page to ask for next, or `None` once the listing is complete.
    pub fn next_request(&self) -> (r: Option<PageRequest>)
        requires
            self.wf(),
        ensures
            finished(self.pages_seen(), self.limit()) ==> r.is_none(),
            !finished(self.pages_seen(), self.limit()) ==> r == Some(
                PageRequest { page: (self.pages_seen().len() + 1) as u64, limit: self.limit() },
            ),
    {
        if self.done {
            None
        } else {
            Some(PageRequest { page: self.page, limit: self.page_size })
        }
    }

    /// Takes in the raw records of the page last asked for: keeps its access
    /// points and decides from the page's raw size whether another follows.
    pub fn accept_page(&mut self, records: Vec<Device>)
        requires
            old(self).wf(),
            !finished(old(self).pages_seen(), old(self).limit()),
            old(self).pages_seen().len() + 1 < u64::MAX,
        ensures
            final(self).wf(),
            final(self).pages_seen() == old(self).pages_seen().push(records@),
            final(self).limit() == old(self).limit(),
    {
        let ghost old_pages = self.pages@;
        let short = records.len() < self.page_size as usize;
        let ghost page = records@;
        let mut found = access_points(records);
        self.aps.append(&mut found);
        self.pages = Ghost(old_pages.push(page));
        self.page = self.page + 1;
        self.done = short;
        proof {
            let new_pages = old_pages.push(page);
            assert(new_pages.drop_last() =~= old_pages);
            lemma_aps_of_concat(flat(old_pages), page);
            assert forall|i: int| 0 <= i < new_pages.len() - 1 implies (
            #[trigger] new_pages[i]).len() >= self.page_size by {
                if i < old_pages.len() - 1 {
                    assert(new_pages[i] == old_pages[i]);
                } else {
                    assert(new_pages[i] == old_pages.last());
                }
            }
        }
    }

    /// The access points of every page received, in order.
    pub fn access_points_found(&self) -> (r: &Vec<Device>)
        requires
            self.wf(),
        ensures
            r@ == aps_of(flat(self.pages_seen())),
    {
        &self.aps
    }

    /// Gives up the pager for the access points of every page received.
    pub fn into_access_points(self) -> (r: Vec<Device>)
        requires
            self.wf(),
        ensures
            r@ == aps_of(flat(self.pages_seen())),
    {
        self.aps
    }
}

/// Paging ends exactly at the first page that is not full: a provider whose
/// pages are full up to a shorter last one is asked for each page once and
/// no request follows the last, whatever the access points among the raw
/// records; the last page's access points come after those of the pages
/// before it.
pub proof fn lemma_paging_stops_at_short_page(pages: Seq<Seq<Device>>, limit: u32)
    requires
        pages.len() > 0,
        all_full_but_last(pages, limit),
        pages.last().len() < limit,
    ensures
        forall|k: int| 0 <= k < pages.len() ==> !finished(#[trigger] pages.take(k), limit),
        finished(pages, limit),
        aps_of(flat(pages)) == aps_of(flat(pages.drop_last())) + aps_of(pages.last()),
{
    assert forall|k: int| 0 <= k < pages.len() implies !finished(#[trigger] pages.take(k), limit) by {
        if k > 0 {
            assert(pages.take(k).last() == pages[k - 1]);
        }
    }
    lemma_aps_of_concat(flat(pages.drop_last()), pages.last());
}

} // verus!
