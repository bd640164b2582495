//! The allocator itself: one color per request, the caller's names first and
//! in order, then indexed palette slots from slot 2 upward, skipping any
//! color already handed out.

use vstd::prelude::*;
use crate::color::{resolved, Color, ColorError};
use crate::color::resolve_name;

verus! {

/// The first palette slot at or after `start` whose indexed color is not in
/// `used`; 256 when every slot up to 255 is taken.
pub open spec fn first_free(used: Seq<Color>, start: int) -> int
    decreases 256 - start,
{
    if start < 0 || start >= 256 {
        256
    } else if !used.contains(Color::Indexed(start as u8)) {
        start
    } else {
        first_free(used, start + 1)
    }
}

/// No color occurs twice in the record of handed-out colors.
pub open spec fn distinct_colors(s: Seq<Color>) -> bool {
    forall|i: int, j: int| 0 <= i < j < s.len() ==> s[i] != s[j]
}

/// A stateful color allocator. Construct it from the caller's ordered name
/// list; each call to [`Colors::next`] consumes the next name, or, once the
/// names are exhausted, hands out the next free indexed palette slot.
pub struct Colors {
    already_used: Vec<Color>,
    color_names: Vec<String>,
    pos: usize,
    next_index: u16,
}

impl Colors {
    /// Every color handed out so far, in emission order, each exactly once.
    pub closed spec fn used(&self) -> Seq<Color> {
        self.already_used@
    }

    /// The names not yet consumed, first to be consumed first.
    pub closed spec fn remaining(&self) -> Seq<Seq<char>> {
        self.color_names@.map_values(|s: String| s@).skip(self.pos as int)
    }

    /// The next indexed palette slot the fallback will try.
    pub closed spec fn index(&self) -> int {
        self.next_index as int
    }

    /// The allocator's invariant: the slot counter starts at 2 and never
    /// passes 256, the name cursor stays within the list, and no color was
    /// ever recorded twice.
    pub closed spec fn wf(&self) -> bool {
        &&& 2 <= self.next_index <= 256
        &&& self.pos <= self.color_names@.len()
        &&& distinct_colors(self.already_used@)
    }

    /// A fresh allocator over the caller's ordered name list: nothing handed
    /// out yet, all names still to be consumed, and the indexed fallback
    /// poised at slot 2 (slots 0 and 1 alias the terminal defaults and are
    /// never auto-assigned).
    pub fn new(color_names: Vec<String>) -> (c: Colors)
        ensures
            c.wf(),
            c.used() == Seq::<Color>::empty(),
            c.remaining() == color_names@.map_values(|s: String| s@),
            c.index() == 2,
    {
        let c = Colors { already_used: Vec::new(), color_names, pos: 0, next_index: 2 };
        proof {
            assert(c.remaining() =~= c.color_names@.map_values(|s: String| s@));
        }
        c
    }

    /// Whether `c` was already handed out.
    fn is_used(&self, c: &Color) -> (b: bool)
        ensures
            b == self.used().contains(*c),
    {
        let n = self.already_used.len();
        let mut k: usize = 0;
        while k < n
            invariant
                n == self.already_used.len(),
                0 <= k <= n,
                forall|t: int| 0 <= t < k ==> self.already_used@[t] != *c,
            decreases n - k,
        {
            if self.already_used[k] == *c {
                return true;
            }
            k = k + 1;
        }
        false
    }

    /// How many names are still to be consumed.
    pub fn names_left(&self) -> (n: usize)
        requires
            self.wf(),
        ensures
            n == self.remaining().len(),
    {
        self.color_names.len() - self.pos
    }

    /// Whether the indexed fallback still has a free slot: some slot from
    /// the current counter up to 255 whose color was never handed out. While
    /// this holds (or names remain), [`Colors::next`] may be called.
    pub fn has_free_slot(&self) -> (b: bool)
        requires
            self.wf(),
        ensures
            b == exists|i: int|
                self.index() <= i <= 255 && !(#[trigger] self.used().contains(
                    Color::Indexed(i as u8),
                )),
    {
        let mut j: u16 = self.next_index;
        while j <= 255
            invariant
                self.wf(),
                self.index() <= j <= 256,
                forall|k: int| self.index() <= k < j ==> #[trigger] self.used().contains(
                    Color::Indexed(k as u8),
                ),
            decreases 256 - j,
        {
            let c = Color::Indexed(j as u8);
            if !self.is_used(&c) {
                return true;
            }
            j = j + 1;
        }
        false
    }

    /// Hands out the next color.
    ///
    /// While names remain, the first remaining name is consumed, hyphens in
    /// it are treated as spaces, and the color grammar decides: a resolvable
    /// name returns its color even when that color was already handed out
    /// (caller-listed names are honored verbatim, never deduplicated), and
    /// an unresolvable name returns the error carrying that name, with the
    /// allocator moving on past it. Once the names are exhausted, the
    /// fallback walks the indexed palette slots upward from the current
    /// counter, skips every color already handed out, and returns the first
    /// free slot; a skipped or taken slot is never revisited.
    pub fn next(&mut self) -> (r: Result<Color, ColorError>)
        requires
            old(self).wf(),
            old(self).remaining().len() == 0 ==> exists|i: int|
                old(self).index() <= i <= 255 && !(#[trigger] old(self).used().contains(
                    Color::Indexed(i as u8),
                )),
        ensures
            final(self).wf(),
            old(self).remaining().len() > 0 ==> {
                &&& final(self).remaining() == old(self).remaining().drop_first()
                &&& final(self).index() == old(self).index()
                &&& match resolved(old(self).remaining()[0]) {
                    Some(c) => {
                        &&& r == Ok::<Color, ColorError>(c)
                        &&& final(self).used() == (if old(self).used().contains(c) {
                            old(self).used()
                        } else {
                            old(self).used().push(c)
                        })
                    },
                    None => {
                        &&& r is Err
                        &&& r->Err_0.name@ == old(self).remaining()[0]
                        &&& r->Err_0.detail@ == "Failed to parse Colors"@
                        &&& final(self).used() == old(self).used()
                    },
                }
            },
            old(self).remaining().len() == 0 ==> {
                let slot = first_free(old(self).used(), old(self).index());
                &&& slot <= 255
                &&& r == Ok::<Color, ColorError>(Color::Indexed(slot as u8))
                &&& !old(self).used().contains(Color::Indexed(slot as u8))
                &&& final(self).used() == old(self).used().push(Color::Indexed(slot as u8))
                &&& final(self).index() == slot + 1
                &&& final(self).remaining() == old(self).remaining()
            },
    {
        if self.pos < self.color_names.len() {
            let name = self.color_names[self.pos].clone();
            self.pos = self.pos + 1;
            proof {
                assert(self.remaining() =~= old(self).remaining().drop_first());
                assert(name@ == old(self).remaining()[0]);
            }
            match resolve_name(name.as_str()) {
                Ok(c) => {
                    if !self.is_used(&c) {
                        self.already_used.push(c);
                    }
                    Ok(c)
                },
                Err(detail) => Err(ColorError { name, detail }),
            }
        } else {
            proof {
                assert(self.remaining().len() == 0);
            }
            let ghost used0 = self.used();
            let ghost idx0 = self.index();
            let mut j: u16 = self.next_index;
            loop
                invariant
                    *self == *old(self),
                    used0 == self.used(),
                    idx0 == self.index(),
                    self.wf(),
                    self.pos >= self.color_names@.len(),
                    idx0 <= j <= 255,
                    forall|k: int| idx0 <= k < j ==> #[trigger] used0.contains(
                        Color::Indexed(k as u8),
                    ),
                    exists|i: int| j <= i <= 255 && !(#[trigger] used0.contains(
                        Color::Indexed(i as u8),
                    )),
                decreases 256 - j,
            {
                let c = Color::Indexed(j as u8);
                if !self.is_used(&c) {
                    proof {
                        lemma_first_free_at(used0, idx0, j as int);
                        assert(self.remaining() =~= old(self).remaining());
                    }
                    self.already_used.push(c);
                    self.next_index = j + 1;
                    return Ok(c);
                }
                proof {
                    let i = choose|i: int|
                        j <= i <= 255 && !(#[trigger] used0.contains(Color::Indexed(i as u8)));
                    assert(i != j);
                }
                j = j + 1;
            }
        }
    }
}

/// Helper for the fallback: when every slot from `start` up to but not
/// including `stop` is taken and `stop` itself is free, `stop` is the first
/// free slot from `start`.
proof fn lemma_first_free_at(used: Seq<Color>, start: int, stop: int)
    requires
        0 <= start <= stop <= 255,
        forall|k: int| start <= k < stop ==> #[trigger] used.contains(Color::Indexed(k as u8)),
        !used.contains(Color::Indexed(stop as u8)),
    ensures
        first_free(used, start) == stop,
    decreases stop - start,
{
    if start < stop {
        lemma_first_free_at(used, start + 1, stop);
    }
}

/// Law: names are consumed strictly left to right, so over a whole session
/// the results of the named phase come in input order: when the names still
/// to be consumed are the suffix of `ns` from position `k`, the name the
/// next call resolves is `ns[k]` itself, and the suffix from `k + 1`
/// remains. With [`Colors::next`]'s contract this gives, by induction over
/// the calls, that call `k` of a session over `ns` returns exactly the
/// resolution of `ns[k]`, duplicates included, no entry skipped or
/// reordered.
pub proof fn lemma_names_consumed_in_order(ns: Seq<Seq<char>>, k: int)
    requires
        0 <= k < ns.len(),
    ensures
        ns.skip(k)[0] == ns[k],
        ns.skip(k).drop_first() == ns.skip(k + 1),
{
    assert(ns.skip(k).drop_first() =~= ns.skip(k + 1));
}

/// Law: an indexed color handed out by the fallback is never handed out
/// again in the same session. Each fallback result is absent from the
/// record at the moment it is emitted, is recorded at once, and the record
/// only ever grows afterwards, however many calls follow.
pub proof fn lemma_indexed_color_never_repeats(
    used1: Seq<Color>,
    c1: Color,
    used2: Seq<Color>,
    c2: Color,
)
    requires
        !used1.contains(c1),
        used1.push(c1).is_prefix_of(used2),
        !used2.contains(c2),
    ensures
        c1 != c2,
{
    let n = used1.len() as int;
    assert(used1.push(c1)[n] == c1);
    assert(used2.subrange(0, n + 1)[n] == used1.push(c1)[n]);
    assert(used2.contains(c1));
}

/// Law: from a fresh allocator with no names, the fallback hands out slots
/// in order with no gaps and no repeats: while the record holds exactly the
/// indexed colors of slots 2 up to the current counter, the next pick is
/// the counter itself.
pub proof fn lemma_fresh_fallback_sequential(used: Seq<Color>, start: int)
    requires
        2 <= start <= 255,
        used == Seq::new((start - 2) as nat, |i: int| Color::Indexed((2 + i) as u8)),
    ensures
        first_free(used, start) == start,
        used.push(Color::Indexed(start as u8)) == Seq::new(
            (start - 1) as nat,
            |i: int| Color::Indexed((2 + i) as u8),
        ),
{
    assert forall|t: int| 0 <= t < used.len() implies used[t] != Color::Indexed(
        start as u8,
    ) by {
        assert(used[t] == Color::Indexed((2 + t) as u8));
        assert((2 + t) as u8 as int == 2 + t);
        assert(start as u8 as int == start);
    }
    assert(!used.contains(Color::Indexed(start as u8)));
    assert(used.push(Color::Indexed(start as u8)) =~= Seq::new(
        (start - 1) as nat,
        |i: int| Color::Indexed((2 + i) as u8),
    ));
}

} // verus!

