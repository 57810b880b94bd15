//! The segment scanner: a forward-only state machine over a sequence of URL
//! path segments. It looks for the marker segment and emits the minimal
//! canonical subsequence around its first occurrence: the immediate
//! predecessor segment (if any), the marker itself, and the one segment that
//! follows it (if any). When the marker is absent it emits nothing and
//! reports failure, so that the caller can fall back to the untouched URL.

use vstd::prelude::*;

verus! {

/// The marker segment: the literal token that separates locale and category
/// noise from the product-identifying block of the path.
pub open spec fn marker() -> Seq<char> {
    "dp"@
}

/// The marker as an executable string.
pub fn marker_string() -> (m: String)
    ensures
        m@ == marker(),
{
    String::from_str("dp")
}

/// True when some segment of the path equals the marker (case-sensitive).
pub open spec fn has_marker(segs: Seq<Seq<char>>) -> bool {
    exists|i: int| 0 <= i < segs.len() && segs[i] == marker()
}

/// True when no segment before index `i` equals the marker.
pub open spec fn no_marker_before(segs: Seq<Seq<char>>, i: int) -> bool {
    forall|j: int| 0 <= j < i ==> segs[j] != marker()
}

/// True when index `i` holds the first occurrence of the marker.
pub open spec fn is_first_marker(segs: Seq<Seq<char>>, i: int) -> bool {
    &&& 0 <= i < segs.len()
    &&& segs[i] == marker()
    &&& no_marker_before(segs, i)
}

/// The canonical subsequence around a marker at index `i`: the immediate
/// predecessor segment if there is one, the marker, and the one segment
/// that follows it if there is one.
pub open spec fn canonical_around(segs: Seq<Seq<char>>, i: int) -> Seq<Seq<char>> {
    (if i > 0 {
        seq![segs[i - 1]]
    } else {
        Seq::<Seq<char>>::empty()
    }) + seq![marker()] + (if i + 1 < segs.len() {
        seq![segs[i + 1]]
    } else {
        Seq::<Seq<char>>::empty()
    })
}

/// The index of the first occurrence of the marker (meaningful only when
/// `has_marker` holds of the path).
pub open spec fn first_marker_index(segs: Seq<Seq<char>>) -> int {
    choose|i: int| is_first_marker(segs, i)
}

/// The cleaned form of a path that holds the marker: the canonical
/// subsequence around its first occurrence.
pub open spec fn cleaned_segments(segs: Seq<Seq<char>>) -> Seq<Seq<char>> {
    canonical_around(segs, first_marker_index(segs))
}

/// At most one index holds the first occurrence of the marker.
pub proof fn lemma_first_marker_unique(segs: Seq<Seq<char>>, i: int, j: int)
    requires
        is_first_marker(segs, i),
        is_first_marker(segs, j),
    ensures
        i == j,
{
    if i < j {
        assert(segs[i] != marker());
    }
    if j < i {
        assert(segs[j] != marker());
    }
}

/// A path that holds the marker somewhere holds a first occurrence of it.
pub proof fn lemma_first_marker_exists(segs: Seq<Seq<char>>)
    requires
        has_marker(segs),
    ensures
        exists|i: int| is_first_marker(segs, i),
{
    let k = choose|k: int| 0 <= k < segs.len() && segs[k] == marker();
    lemma_first_marker_exists_from(segs, k);
}

proof fn lemma_first_marker_exists_from(segs: Seq<Seq<char>>, k: int)
    requires
        0 <= k < segs.len(),
        segs[k] == marker(),
    ensures
        exists|i: int| is_first_marker(segs, i),
    decreases k,
{
    if no_marker_before(segs, k) {
        assert(is_first_marker(segs, k));
    } else {
        let j = choose|j: int| 0 <= j < k && segs[j] == marker();
        lemma_first_marker_exists_from(segs, j);
    }
}

/// When `i` is known to hold the first marker, it is the first marker
/// index, and the cleaned form is exactly the canonical subsequence
/// around `i`.
pub proof fn lemma_cleaned_at(segs: Seq<Seq<char>>, i: int)
    requires
        is_first_marker(segs, i),
    ensures
        has_marker(segs),
        first_marker_index(segs) == i,
        cleaned_segments(segs) == canonical_around(segs, i),
{
    assert(0 <= i < segs.len() && segs[i] == marker());
    lemma_first_marker_unique(segs, first_marker_index(segs), i);
}

/// Cleaning is idempotent: the cleaned form of a path that holds the marker
/// still holds the marker, and cleaning it again changes nothing.
pub proof fn lemma_cleaning_idempotent(segs: Seq<Seq<char>>)
    requires
        has_marker(segs),
    ensures
        has_marker(cleaned_segments(segs)),
        cleaned_segments(cleaned_segments(segs)) == cleaned_segments(segs),
{
    lemma_first_marker_exists(segs);
    let i = first_marker_index(segs);
    lemma_cleaned_at(segs, i);
    let c = canonical_around(segs, i);
    if i > 0 {
        assert(c[1] == marker());
        assert(segs[i - 1] != marker());
        assert(is_first_marker(c, 1));
        lemma_cleaned_at(c, 1);
        assert(canonical_around(c, 1) =~= c);
    } else {
        assert(c[0] == marker());
        assert(is_first_marker(c, 0));
        lemma_cleaned_at(c, 0);
        assert(canonical_around(c, 0) =~= c);
    }
}

/// The segments joined back into a path, `/` between each two.
pub open spec fn join_segments(segs: Seq<Seq<char>>) -> Seq<char>
    decreases segs.len(),
{
    if segs.len() == 0 {
        Seq::<char>::empty()
    } else if segs.len() == 1 {
        segs[0]
    } else {
        segs[0] + "/"@ + join_segments(segs.drop_first())
    }
}

/// Appending one more segment extends the joined path by a separator and
/// that segment (the separator is omitted before the first segment).
proof fn lemma_join_push(segs: Seq<Seq<char>>, x: Seq<char>)
    ensures
        join_segments(segs.push(x)) == if segs.len() == 0 {
            x
        } else {
            join_segments(segs) + "/"@ + x
        },
    decreases segs.len(),
{
    let p = segs.push(x);
    if segs.len() == 0 {
        assert(p.len() == 1 && p[0] == x);
        assert(join_segments(p) == x);
    } else if segs.len() == 1 {
        assert(p.len() == 2 && p[0] == segs[0]);
        assert(p.drop_first() =~= seq![x]);
        assert(join_segments(seq![x]) == x);
        assert(join_segments(p) == segs[0] + "/"@ + x);
    } else {
        lemma_join_push(segs.drop_first(), x);
        assert(p.drop_first() =~= segs.drop_first().push(x));
        let d = join_segments(segs.drop_first());
        assert(join_segments(p.drop_first()) == d + "/"@ + x);
        assert(join_segments(p) == segs[0] + "/"@ + (d + "/"@ + x));
        assert(join_segments(segs) == segs[0] + "/"@ + d);
        assert(segs[0] + "/"@ + (d + "/"@ + x) =~= (segs[0] + "/"@ + d) + "/"@ + x);
    }
}

/// Join path segments with `/` between each two.
pub fn join_path(segs: &Vec<String>) -> (r: String)
    ensures
        r@ == join_segments(segs@.map_values(|s: String| s@)),
{
    let ghost gsegs = segs@.map_values(|s: String| s@);
    let mut r = String::new();
    let mut i: usize = 0;
    while i < segs.len()
        invariant
            i <= segs.len(),
            gsegs == segs@.map_values(|s: String| s@),
            r@ == join_segments(gsegs.take(i as int)),
        decreases segs.len() - i,
    {
        proof {
            lemma_join_push(gsegs.take(i as int), gsegs[i as int]);
            assert(gsegs.take(i as int).push(gsegs[i as int]) =~= gsegs.take(i + 1));
        }
        if i > 0 {
            r.append("/");
        }
        r.append(segs[i].as_str());
        i = i + 1;
    }
    proof {
        assert(gsegs.take(segs@.len() as int) =~= gsegs);
    }
    r
}

/// The scanner's four states.
#[derive(Clone, Copy, Debug)]
pub enum State {
    /// Scanning for the marker; nothing captured yet.
    Start,
    /// The marker just matched; about to emit it.
    AfterMarker,
    /// About to emit the one segment that follows the marker.
    EmittingTrailer,
    /// Terminal: the scan succeeded and nothing more is emitted.
    Done,
}

/// The segment scanner. It is created on a sequence of path segments,
/// drained once to exhaustion, then discarded; success means it reached
/// `State::Done`, which happens exactly when the marker was found.
#[derive(Debug)]
pub struct Cleaner {
    segs: Vec<String>,
    pos: usize,
    state: State,
}

impl Cleaner {
    /// The path segments the scanner reads, as sequences of characters.
    pub closed spec fn segments(self) -> Seq<Seq<char>> {
        self.segs@.map_values(|s: String| s@)
    }

    /// The scanner's position in the input: segments before it are consumed.
    pub closed spec fn cursor(self) -> int {
        self.pos as int
    }

    /// The scanner's current state.
    pub closed spec fn scan_state(self) -> State {
        self.state
    }

    /// Well-formedness: the cursor stays within the input, and each state
    /// only occurs at positions the scan can actually reach.
    pub closed spec fn wf(self) -> bool {
        &&& self.pos <= self.segs@.len()
        &&& match self.state {
            State::Start => self.pos == 0 || (self.pos == self.segs@.len()
                && !has_marker(self.segments())),
            State::AfterMarker => is_first_marker(self.segments(), self.pos - 1),
            State::EmittingTrailer => true,
            State::Done => true,
        }
    }

    /// Whether the marker was, or still will be, found by this scanner.
    pub open spec fn found(self) -> bool {
        match self.scan_state() {
            State::Start => self.cursor() == 0 && has_marker(self.segments()),
            _ => true,
        }
    }

    /// What a full drain of the scanner will still emit from this state.
    pub open spec fn remaining(self) -> Seq<Seq<char>> {
        match self.scan_state() {
            State::Start => if self.cursor() == 0 && has_marker(self.segments()) {
                cleaned_segments(self.segments())
            } else {
                Seq::<Seq<char>>::empty()
            },
            State::AfterMarker => seq![marker()] + self.trailer(),
            State::EmittingTrailer => self.trailer(),
            State::Done => Seq::<Seq<char>>::empty(),
        }
    }

    /// The at-most-one segment still to be emitted after the marker.
    pub open spec fn trailer(self) -> Seq<Seq<char>> {
        if self.cursor() < self.segments().len() {
            seq![self.segments()[self.cursor()]]
        } else {
            Seq::<Seq<char>>::empty()
        }
    }

    /// A fresh scanner over the given path segments.
    pub fn new(segs: Vec<String>) -> (c: Cleaner)
        ensures
            c.wf(),
            c.segments() == segs@.map_values(|s: String| s@),
            c.scan_state() is Start,
            c.cursor() == 0,
    {
        Cleaner { segs, pos: 0, state: State::Start }
    }

    /// Whether the scanner reached its terminal success state.
    pub fn is_done(&self) -> (b: bool)
        ensures
            b == (self.scan_state() is Done),
    {
        matches!(self.state, State::Done)
    }

    /// Produce the next output segment, or signal exhaustion. The first
    /// output is either the marker's immediate predecessor or the marker
    /// itself; no placeholder is emitted when the marker opens the path.
    pub fn next(&mut self) -> (r: Option<String>)
        requires
            old(self).wf(),
        ensures
            final(self).wf(),
            final(self).segments() == old(self).segments(),
            final(self).found() == old(self).found(),
            match r {
                Some(s) => old(self).remaining().len() > 0
                    && s@ == old(self).remaining()[0]
                    && final(self).remaining() == old(self).remaining().drop_first(),
                None => old(self).remaining().len() == 0
                    && final(self).remaining().len() == 0
                    && (final(self).scan_state() is Done <==> old(self).found()),
            },
            old(self).scan_state() is Start && old(self).found() ==> ({
                let i = first_marker_index(old(self).segments());
                &&& final(self).cursor() == i + 1
                &&& if i > 0 {
                    final(self).scan_state() is AfterMarker
                } else {
                    final(self).scan_state() is EmittingTrailer
                }
            }),
            old(self).scan_state() is Start && !old(self).found()
                ==> final(self).scan_state() is Start
                && final(self).cursor() == old(self).segments().len(),
            old(self).scan_state() is AfterMarker
                ==> final(self).scan_state() is EmittingTrailer
                && final(self).cursor() == old(self).cursor(),
            old(self).scan_state() is EmittingTrailer ==> final(self).scan_state() is Done
                && final(self).cursor() == old(self).cursor() + old(self).trailer().len(),
            old(self).scan_state() is Done ==> final(self).scan_state() is Done
                && final(self).cursor() == old(self).cursor(),
    {
        match self.state {
            State::Start => {
                let m = marker_string();
                let mut previous: Option<String> = None;
                proof {
                    assert(no_marker_before(self.segments(), self.pos as int));
                }
                while self.pos < self.segs.len()
                    invariant
                        self.pos <= self.segs@.len(),
                        self.state is Start,
                        self.segments() == old(self).segments(),
                        old(self).wf(),
                        old(self).scan_state() is Start,
                        self.pos >= old(self).cursor(),
                        m@ == marker(),
                        no_marker_before(self.segments(), self.pos as int),
                        match previous {
                            Some(p) => self.pos > 0 && p@ == self.segments()[self.pos - 1],
                            None => self.pos == 0 || self.pos == old(self).cursor(),
                        },
                    decreases self.segs@.len() - self.pos,
                {
                    if self.segs[self.pos] == m {
                        let ghost i = self.pos as int;
                        proof {
                            assert(self.segments()[i] == marker());
                            assert(has_marker(self.segments()));
                            assert(is_first_marker(self.segments(), i));
                            lemma_cleaned_at(self.segments(), i);
                            assert(old(self).cursor() == 0);
                            assert(old(self).remaining() == canonical_around(self.segments(), i));
                        }
                        self.pos = self.pos + 1;
                        match previous {
                            Some(p) => {
                                self.state = State::AfterMarker;
                                proof {
                                    assert(self.remaining()
                                        =~= old(self).remaining().drop_first());
                                }
                                return Some(p);
                            },
                            None => {
                                self.state = State::EmittingTrailer;
                                proof {
                                    assert(i == 0);
                                    assert(self.remaining()
                                        =~= old(self).remaining().drop_first());
                                }
                                return Some(m);
                            },
                        }
                    }
                    proof {
                        assert(self.segments()[self.pos as int] != marker());
                    }
                    previous = Some(self.segs[self.pos].clone());
                    self.pos = self.pos + 1;
                }
                proof {
                    assert(!has_marker(self.segments()));
                }
                None
            },
            State::AfterMarker => {
                self.state = State::EmittingTrailer;
                proof {
                    assert(old(self).remaining()[0] == marker());
                    assert(self.remaining() =~= old(self).remaining().drop_first());
                }
                Some(marker_string())
            },
            State::EmittingTrailer => {
                self.state = State::Done;
                if self.pos < self.segs.len() {
                    let s = self.segs[self.pos].clone();
                    self.pos = self.pos + 1;
                    proof {
                        assert(old(self).remaining().len() == 1);
                        assert(self.remaining() =~= old(self).remaining().drop_first());
                    }
                    Some(s)
                } else {
                    None
                }
            },
            State::Done => None,
        }
    }

    /// Drain the scanner to exhaustion and collect everything it emits.
    /// Afterwards it still holds the same input, nothing more can be
    /// emitted, and it is in its terminal success state exactly when the
    /// marker was found.
    pub fn collect_all(&mut self) -> (out: Vec<String>)
        requires
            old(self).wf(),
        ensures
            final(self).wf(),
            final(self).segments() == old(self).segments(),
            final(self).remaining().len() == 0,
            out@.map_values(|s: String| s@) == old(self).remaining(),
            final(self).scan_state() is Done <==> old(self).found(),
    {
        let mut out: Vec<String> = Vec::new();
        let mut done = false;
        proof {
            assert(out@.map_values(|s: String| s@) + self.remaining() =~= self.remaining());
        }
        while !done
            invariant
                self.wf(),
                self.segments() == old(self).segments(),
                self.found() == old(self).found(),
                out@.map_values(|s: String| s@) + self.remaining() == old(self).remaining(),
                done ==> self.remaining().len() == 0
                    && (self.scan_state() is Done <==> old(self).found()),
            decreases self.remaining().len() + (if done { 0int } else { 1 }),
        {
            let ghost prev_out = out@.map_values(|s: String| s@);
            match self.next() {
                Some(s) => {
                    out.push(s);
                    proof {
                        assert(out@.map_values(|q: String| q@)
                            =~= prev_out.push(s@));
                        assert(out@.map_values(|q: String| q@) + self.remaining()
                            =~= old(self).remaining());
                    }
                },
                None => {
                    done = true;
                },
            }
        }
        proof {
            assert(out@.map_values(|s: String| s@) =~= old(self).remaining());
        }
        out
    }
}

} // verus!
