use vstd::prelude::*;
use std::collections::VecDeque;

verus! {

/// What listing one directory gave.
pub enum Listing<P, E> {
    /// The entries of the directory, each with whether it is itself a directory.
    Entries(Vec<(P, bool)>),
    /// The directory could not be opened.
    Unreadable(E),
    /// Reading one of the directory's entries failed.
    EntryFailed(E),
}

/// The entries of `entries` that are directories, in order.
pub open spec fn directories_of<P>(entries: Seq<(P, bool)>) -> Seq<P>
    decreases entries.len(),
{
    if entries.len() == 0 {
        Seq::empty()
    } else if entries.last().1 {
        directories_of(entries.drop_last()).push(entries.last().0)
    } else {
        directories_of(entries.drop_last())
    }
}

/// The entries of `entries` that are not directories, in order.
pub open spec fn files_of<P>(entries: Seq<(P, bool)>) -> Seq<P>
    decreases entries.len(),
{
    if entries.len() == 0 {
        Seq::empty()
    } else if entries.last().1 {
        files_of(entries.drop_last())
    } else {
        files_of(entries.drop_last()).push(entries.last().0)
    }
}

/// The directories a walk from `start` reaches once the listings `listings` are recorded, in
/// the order reached: the start, then the subdirectories of each listing in turn.
pub open spec fn reached_directories<P>(start: P, listings: Seq<Seq<(P, bool)>>) -> Seq<P>
    decreases listings.len(),
{
    if listings.len() == 0 {
        seq![start]
    } else {
        reached_directories(start, listings.drop_last()) + directories_of(listings.last())
    }
}

/// The files of the listings `listings`, listing after listing, in order.
pub open spec fn files_listed<P>(listings: Seq<Seq<(P, bool)>>) -> Seq<P>
    decreases listings.len(),
{
    if listings.len() == 0 {
        Seq::empty()
    } else {
        files_listed(listings.drop_last()) + files_of(listings.last())
    }
}

/// A breadth-first walk of a directory tree that collects the files it finds.
///
/// The walk hands out one directory at a time (`next_directory`); the caller lists it and
/// records the listing (`record`). The directories found are listed in the order found.
pub struct DirectoryWalk<P> {
    pending: VecDeque<P>,
    files: Vec<P>,
    start_listed: bool,
    awaiting: bool,
    start: Ghost<P>,
    listed: Ghost<Seq<Seq<(P, bool)>>>,
}

impl<P> DirectoryWalk<P> {
    /// The directories still to be listed, in order.
    pub closed spec fn pending(&self) -> Seq<P> {
        self.pending@
    }

    /// The files found so far, in the order found.
    pub closed spec fn files(&self) -> Seq<P> {
        self.files@
    }

    /// Whether the starting directory's listing has been recorded.
    pub closed spec fn start_listed(&self) -> bool {
        self.start_listed
    }

    /// Whether a directory has been handed out and its listing is not yet recorded.
    pub closed spec fn awaiting(&self) -> bool {
        self.awaiting
    }

    /// The directory the walk started from.
    pub closed spec fn start(&self) -> P {
        self.start@
    }

    /// The listings recorded so far, in order; a directory that was skipped, or whose listing
    /// failed, counts as an empty listing.
    pub closed spec fn listings(&self) -> Seq<Seq<(P, bool)>> {
        self.listed@
    }

    /// The number of directories handed out so far.
    pub open spec fn handed_out(&self) -> nat {
        self.listings().len() + if self.awaiting() { 1nat } else { 0nat }
    }

    /// The walk's invariant: the pending directories are the reached ones not yet handed out,
    /// and the files are those of the recorded listings.
    pub open spec fn wf(&self) -> bool {
        let reached = reached_directories(self.start(), self.listings());
        &&& self.handed_out() <= reached.len()
        &&& self.pending() == reached.skip(self.handed_out() as int)
        &&& self.files() == files_listed(self.listings())
        &&& self.start_listed() == (self.listings().len() > 0)
    }

    /// A walk from the directory `start`.
    pub fn new(start: P) -> (w: Self)
        ensures
            w.wf(),
            w.start() == start,
            w.listings() == Seq::<Seq<(P, bool)>>::empty(),
            w.pending() == seq![start],
            w.files() == Seq::<P>::empty(),
            !w.start_listed(),
            !w.awaiting(),
    {
        let ghost g = start;
        let mut pending = VecDeque::new();
        pending.push_back(start);
        let w = DirectoryWalk {
            pending,
            files: Vec::new(),
            start_listed: false,
            awaiting: false,
            start: Ghost(g),
            listed: Ghost(Seq::empty()),
        };
        assert(reached_directories(g, Seq::<Seq<(P, bool)>>::empty()).skip(0) =~= seq![g]);
        w
    }

    /// Whether the starting directory's listing has been recorded.
    pub fn is_start_listed(&self) -> (r: bool)
        ensures
            r == self.start_listed(),
    {
        self.start_listed
    }

    /// The next directory to list, first in first out, or `None` when none is left.
    pub fn next_directory(&mut self) -> (d: Option<P>)
        requires
            old(self).wf(),
            !old(self).awaiting(),
        ensures
            final(self).wf(),
            final(self).start() == old(self).start(),
            final(self).listings() == old(self).listings(),
            old(self).pending().len() == 0 <==> old(self).listings().len() == reached_directories(
                old(self).start(),
                old(self).listings(),
            ).len(),
            d matches Some(dir) ==> dir == reached_directories(old(self).start(), old(self).listings())[old(
                self,
            ).listings().len() as int],
            old(self).pending().len() == 0 ==> {
                &&& d is None
                &&& final(self).pending() == old(self).pending()
                &&& final(self).files() == old(self).files()
                &&& final(self).start_listed() == old(self).start_listed()
                &&& !final(self).awaiting()
            },
            old(self).pending().len() > 0 ==> {
                &&& d == Some(old(self).pending()[0])
                &&& final(self).pending() == old(self).pending().drop_first()
                &&& final(self).files() == old(self).files()
                &&& final(self).start_listed() == old(self).start_listed()
                &&& final(self).awaiting()
            },
    {
        let ghost reached = reached_directories(self.start@, self.listed@);
        let d = self.pending.pop_front();
        if d.is_some() {
            self.awaiting = true;
            assert(self.pending@ =~= reached.skip(self.listed@.len() as int + 1));
        }
        d
    }

    /// Records the listing of the directory last handed out. Its subdirectories join the end
    /// of the pending directories and its other entries the files. The walk fails when an
    /// entry cannot be read, and when the starting directory cannot be opened; any other
    /// directory that cannot be opened is skipped.
    pub fn record<E>(&mut self, listing: Listing<P, E>) -> (r: Result<(), E>)
        requires
            old(self).wf(),
            old(self).awaiting(),
        ensures
            final(self).wf(),
            final(self).start() == old(self).start(),
            final(self).listings() == old(self).listings().push(
                match listing {
                    Listing::Entries(entries) => entries@,
                    _ => Seq::empty(),
                },
            ),
            !final(self).awaiting(),
            final(self).start_listed(),
            match listing {
                Listing::Entries(entries) => {
                    &&& r is Ok
                    &&& final(self).pending() == old(self).pending() + directories_of(entries@)
                    &&& final(self).files() == old(self).files() + files_of(entries@)
                },
                Listing::Unreadable(e) => {
                    &&& old(self).start_listed() ==> r is Ok
                    &&& !old(self).start_listed() ==> r == Err::<(), E>(e)
                    &&& final(self).pending() == old(self).pending()
                    &&& final(self).files() == old(self).files()
                },
                Listing::EntryFailed(e) => r == Err::<(), E>(e),
            },
    {
        let was_start_listed = self.start_listed;
        let ghost listed0 = self.listed@;
        let ghost reached0 = reached_directories(self.start@, listed0);
        let ghost n0 = listed0.len();
        let ghost start0 = self.start@;
        self.awaiting = false;
        self.start_listed = true;
        match listing {
            Listing::Entries(entries) => {
                let ghost es = entries@;
                let ghost pending0 = self.pending@;
                let ghost files0 = self.files@;
                let mut n: usize = 0;
                assert(es.len() == entries.len());
                for e in it: entries.into_iter()
                    invariant
                        it.seq() == es,
                        n == it.index(),
                        n <= es.len(),
                        es.len() <= usize::MAX,
                        self.pending@ == pending0 + directories_of(es.take(n as int)),
                        self.files@ == files0 + files_of(es.take(n as int)),
                        !self.awaiting,
                        self.start_listed,
                        self.start@ == start0,
                        self.listed@ == listed0,
                {
                    assert(es.take(n + 1).drop_last() =~= es.take(n as int));
                    let (p, is_dir) = e;
                    if is_dir {
                        self.pending.push_back(p);
                        assert(self.pending@ =~= pending0 + directories_of(es.take(n + 1)));
                    } else {
                        self.files.push(p);
                        assert(self.files@ =~= files0 + files_of(es.take(n + 1)));
                    }
                    n = n + 1;
                }
                assert(es.take(n as int) =~= es);
                self.listed = Ghost(listed0.push(es));
                proof {
                    assert(self.listed@.drop_last() =~= listed0);
                    assert(reached0.skip(n0 as int + 1) + directories_of(es) =~= (reached0 + directories_of(es)).skip(n0 as int + 1));
                }
                Ok(())
            },
            Listing::Unreadable(e) => {
                self.listed = Ghost(listed0.push(Seq::empty()));
                proof {
                    assert(self.listed@.drop_last() =~= listed0);
                    assert(directories_of(Seq::<(P, bool)>::empty()) =~= Seq::<P>::empty());
                    assert(files_of(Seq::<(P, bool)>::empty()) =~= Seq::<P>::empty());
                    assert(reached0 + Seq::<P>::empty() =~= reached0);
                    assert(self.files@ + Seq::<P>::empty() =~= self.files@);
                }
                if was_start_listed {
                    Ok(())
                } else {
                    Err(e)
                }
            },
            Listing::EntryFailed(e) => {
                self.listed = Ghost(listed0.push(Seq::empty()));
                proof {
                    assert(self.listed@.drop_last() =~= listed0);
                    assert(directories_of(Seq::<(P, bool)>::empty()) =~= Seq::<P>::empty());
                    assert(files_of(Seq::<(P, bool)>::empty()) =~= Seq::<P>::empty());
                    assert(reached0 + Seq::<P>::empty() =~= reached0);
                    assert(self.files@ + Seq::<P>::empty() =~= self.files@);
                }
                Err(e)
            },
        }
    }

    /// The files found, in the order found.
    pub fn into_files(self) -> (files: Vec<P>)
        requires
            self.wf(),
        ensures
            files@ == files_listed(self.listings()),
            files@ == self.files(),
    {
        self.files
    }
}

/// Law: a walk driven until no directory is left has handed out every directory it reached,
/// each once and in the order reached (the `i`-th listing recorded is that of the `i`-th
/// reached directory, by `next_directory`'s contract), and its files are exactly the
/// non-directory entries of all listings, in order.
pub proof fn law_finished_walk_covers_all_reached<P>(w: DirectoryWalk<P>)
    requires
        w.wf(),
        !w.awaiting(),
        w.pending().len() == 0,
    ensures
        w.listings().len() == reached_directories(w.start(), w.listings()).len(),
        w.files() == files_listed(w.listings()),
{
}

} // verus!
