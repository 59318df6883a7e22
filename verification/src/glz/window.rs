//! The per-session image dictionary.

use std::collections::HashMap;

use vstd::prelude::*;
use vstd::std_specs::hash::*;

verus! {

/// An image of the dictionary.
pub struct Image {
    pub pixels: Seq<u8>,
    /// Bytes per pixel.
    pub bpp: u32,
}

/// What a dictionary holds: the ids of its images, oldest first, and the
/// images.
pub struct Images {
    pub order: Seq<u64>,
    pub images: Map<u64, Image>,
}

impl Images {
    /// The bytes of the images named by `ids`.
    pub open spec fn bytes_of(images: Map<u64, Image>, ids: Seq<u64>) -> nat
        decreases ids.len(),
    {
        if ids.len() == 0 {
            0
        } else {
            images[ids[0]].pixels.len() + Self::bytes_of(images, ids.drop_first())
        }
    }

    /// The bytes of all images.
    pub open spec fn bytes(self) -> nat {
        Self::bytes_of(self.images, self.order)
    }

    /// The bytes of the image of this id, if there is one.
    pub open spec fn held(self, id: u64) -> nat {
        if self.images.dom().contains(id) {
            self.images[id].pixels.len()
        } else {
            0
        }
    }

    /// Each image is listed once.
    pub open spec fn ok(self) -> bool {
        &&& self.order.no_duplicates()
        &&& forall|id: u64| self.order.contains(id) <==> #[trigger] self.images.dom().contains(id)
    }

    /// The ids but for one.
    pub open spec fn without(ids: Seq<u64>, id: u64) -> Seq<u64> {
        ids.filter(|x: u64| x != id)
    }

    /// With an image added or replaced: it is now the newest.
    pub open spec fn with(self, id: u64, image: Image) -> Images {
        Images {
            order: Self::without(self.order, id).push(id),
            images: self.images.insert(id, image),
        }
    }

    /// With the oldest images evicted until the budget holds, or one is left.
    pub open spec fn evicted(self, capacity: nat) -> Images
        decreases self.order.len(),
    {
        if self.bytes() > capacity && self.order.len() > 1 {
            Images {
                order: self.order.drop_first(),
                images: self.images.remove(self.order[0]),
            }.evicted(capacity)
        } else {
            self
        }
    }
}

/// Removing an image that is not listed changes no sum.
proof fn lemma_bytes_remove(images: Map<u64, Image>, ids: Seq<u64>, id: u64)
    requires
        !ids.contains(id),
    ensures
        Images::bytes_of(images.remove(id), ids) == Images::bytes_of(images, ids),
    decreases ids.len(),
{
    if ids.len() > 0 {
        assert(ids.contains(ids[0]));
        assert forall|x: u64| ids.drop_first().contains(x) implies ids.contains(x) by {
            let k = choose|k: int| 0 <= k < ids.drop_first().len() && ids.drop_first()[k] == x;
            assert(ids[k + 1] == x);
        }
        lemma_bytes_remove(images, ids.drop_first(), id);
    }
}

proof fn lemma_bytes_insert(images: Map<u64, Image>, ids: Seq<u64>, id: u64, image: Image)
    requires
        !ids.contains(id),
    ensures
        Images::bytes_of(images.insert(id, image), ids) == Images::bytes_of(images, ids),
    decreases ids.len(),
{
    if ids.len() > 0 {
        assert(ids.contains(ids[0]));
        assert forall|x: u64| ids.drop_first().contains(x) implies ids.contains(x) by {
            let k = choose|k: int| 0 <= k < ids.drop_first().len() && ids.drop_first()[k] == x;
            assert(ids[k + 1] == x);
        }
        lemma_bytes_insert(images, ids.drop_first(), id, image);
    }
}

proof fn lemma_bytes_push(images: Map<u64, Image>, ids: Seq<u64>, id: u64)
    ensures
        Images::bytes_of(images, ids.push(id)) == Images::bytes_of(images, ids)
            + images[id].pixels.len(),
    decreases ids.len(),
{
    reveal_with_fuel(Images::bytes_of, 2);
    if ids.len() > 0 {
        lemma_bytes_push(images, ids.drop_first(), id);
        assert(ids.push(id).drop_first() =~= ids.drop_first().push(id));
    } else {
        assert(ids.push(id).drop_first() =~= ids);
    }
}

/// The sum over a list is that over the list without one id, and its image.
proof fn lemma_bytes_without(images: Map<u64, Image>, ids: Seq<u64>, k: int)
    requires
        0 <= k < ids.len(),
    ensures
        Images::bytes_of(images, ids) == Images::bytes_of(images, ids.remove(k))
            + images[ids[k]].pixels.len(),
    decreases ids.len(),
{
    if k == 0 {
        assert(ids.remove(0) =~= ids.drop_first());
    } else {
        lemma_bytes_without(images, ids.drop_first(), k - 1);
        assert(ids.remove(k).drop_first() =~= ids.drop_first().remove(k - 1));
    }
}

/// In a list without repetition, dropping an id is dropping its place.
proof fn lemma_without(ids: Seq<u64>, id: u64, k: int)
    requires
        ids.no_duplicates(),
        0 <= k < ids.len(),
        ids[k] == id,
    ensures
        Images::without(ids, id) == ids.remove(k),
    decreases ids.len(),
{
    let keep = |x: u64| x != id;
    reveal(Seq::filter);
    let front = ids.drop_last();
    assert(ids =~= front.push(ids.last()));
    if k == ids.len() - 1 {
        lemma_without_absent(front, id);
        assert(ids.remove(k) =~= front);
    } else {
        assert(front.no_duplicates()) by {
            assert forall|i: int, j: int|
                0 <= i < front.len() && 0 <= j < front.len() && i != j implies front[i]
                != front[j] by {
                assert(ids[i] != ids[j]);
            }
        }
        lemma_without(front, id, k);
        assert(ids.last() != id);
        assert(ids.remove(k) =~= front.remove(k).push(ids.last()));
    }
}

proof fn lemma_without_absent(ids: Seq<u64>, id: u64)
    requires
        !ids.contains(id),
    ensures
        Images::without(ids, id) == ids,
    decreases ids.len(),
{
    reveal(Seq::filter);
    if ids.len() > 0 {
        let front = ids.drop_last();
        assert forall|x: u64| front.contains(x) implies ids.contains(x) by {
            let k = choose|k: int| 0 <= k < front.len() && front[k] == x;
            assert(ids[k] == x);
        }
        assert(ids.contains(ids.last()));
        lemma_without_absent(front, id);
        assert(ids =~= front.push(ids.last()));
    }
}

/// An image of the dictionary.
#[derive(Debug)]
pub struct WindowEntry {
    pub pixels: Vec<u8>,
    /// Bytes per pixel in `pixels` (4 for BGRA, 3 for RGB24, ...).
    pub bpp: u32,
}

impl View for WindowEntry {
    type V = Image;

    open spec fn view(&self) -> Image {
        Image { pixels: self.pixels@, bpp: self.bpp }
    }
}

/// Per-session image dictionary. GLZ back-references can target any image
/// still in the window via `target_id = current_id - image_dist`. Stored
/// pixels are in the format the decoder produced (BGRA for RGB32). Eviction
/// is byte-budget driven rather than entry-count driven so a long tail of
/// small icon updates can stay resident alongside the occasional full-frame
/// paint.
#[derive(Debug)]
pub struct GlzWindow {
    images: HashMap<u64, WindowEntry>,
    /// The ids in `images`, oldest first.
    order: Vec<u64>,
    /// Sum of `pixels.len()` across all entries.
    bytes_used: usize,
    /// Eviction trigger.
    capacity_bytes: usize,
}

impl View for GlzWindow {
    type V = Images;

    closed spec fn view(&self) -> Images {
        Images {
            order: self.order@,
            images: self.images@.map_values(|e: WindowEntry| e@),
        }
    }
}

impl GlzWindow {
    /// The window keeps its books.
    pub closed spec fn wf(self) -> bool {
        &&& self@.ok()
        &&& self.bytes_used == self@.bytes()
    }

    /// The byte budget.
    pub closed spec fn capacity(self) -> nat {
        self.capacity_bytes as nat
    }

    /// A window that keeps its books lists each of its images once, and counts
    /// their bytes in a machine word.
    pub proof fn books_are_sound(self)
        requires
            self.wf(),
        ensures
            self@.ok(),
            self@.bytes() <= usize::MAX,
    {
    }

    /// New window with the given byte budget, of at least 1 KiB. Smaller
    /// budgets risk evicting still-referenced images on busy desktops.
    pub fn new(capacity_bytes: usize) -> (w: Self)
        ensures
            w.wf(),
            w@.order == Seq::<u64>::empty(),
            w@.images == Map::<u64, Image>::empty(),
            w.capacity() == if capacity_bytes > 1024 {
                capacity_bytes as nat
            } else {
                1024
            },
    {
        broadcast use group_hash_axioms;

        let w = Self {
            images: HashMap::new(),
            order: Vec::new(),
            bytes_used: 0,
            capacity_bytes: if capacity_bytes > 1024 {
                capacity_bytes
            } else {
                1024
            },
        };
        assert(w@.order =~= Seq::<u64>::empty());
        assert(w@.images =~= Map::<u64, Image>::empty());
        w
    }

    pub fn len(&self) -> (n: usize)
        requires
            self.wf(),
        ensures
            n == self@.order.len(),
    {
        self.order.len()
    }

    pub fn is_empty(&self) -> (b: bool)
        requires
            self.wf(),
        ensures
            b == (self@.order.len() == 0),
    {
        self.order.len() == 0
    }

    pub fn bytes_used(&self) -> (n: usize)
        requires
            self.wf(),
        ensures
            n == self@.bytes(),
    {
        self.bytes_used
    }

    pub fn clear(&mut self)
        ensures
            final(self).wf(),
            final(self)@.order == Seq::<u64>::empty(),
            final(self)@.images == Map::<u64, Image>::empty(),
            final(self).capacity() == old(self).capacity(),
    {
        broadcast use group_hash_axioms;

        self.images.clear();
        self.order.clear();
        self.bytes_used = 0;
        assert(self@.order =~= Seq::<u64>::empty());
        assert(self@.images =~= Map::<u64, Image>::empty());
    }

    /// The image of this id, if it is still in the window.
    pub fn get(&self, id: u64) -> (r: Option<&WindowEntry>)
        ensures
            match r {
                Some(e) => self@.images.dom().contains(id) && e@ == self@.images[id],
                None => !self@.images.dom().contains(id),
            },
    {
        broadcast use group_hash_axioms;

        self.images.get(&id)
    }

    /// Insert (or replace) an image. If `bytes_used` exceeds the budget,
    /// evicts the oldest-inserted entries until it fits.
    pub fn insert(&mut self, id: u64, pixels: Vec<u8>, bpp: u32)
        requires
            old(self).wf(),
        ensures
            final(self).wf(),
            final(self)@ == old(self)@.with(id, (Image { pixels: pixels@, bpp })).evicted(
                old(self).capacity(),
            ),
            final(self).capacity() == old(self).capacity(),
            final(self)@.images.dom().contains(id),
            final(self)@.images[id] == (Image { pixels: pixels@, bpp }),
            final(self)@.order.last() == id,
            final(self)@.bytes() <= old(self).capacity() || final(self)@.order == seq![id],
            final(self)@.bytes() <= old(self).capacity() || final(self)@.bytes() == pixels@.len(),
    {
        broadcast use group_hash_axioms;

        let ghost before = self@;
        let ghost image = Image { pixels: pixels@, bpp };
        let new_bytes: usize = pixels.len();
        let replaced: usize = self.forget(id);
        let mut total: u128 = (self.bytes_used - replaced) as u128 + new_bytes as u128;
        let ghost kept = self@;
        self.images.insert(id, WindowEntry { pixels, bpp });
        self.order.push(id);
        proof {
            lemma_bytes_insert(kept.images, kept.order, id, image);
            lemma_bytes_push(kept.images.insert(id, image), kept.order, id);
            assert(self@.images =~= kept.images.insert(id, image));
            assert(self@.images =~= before.with(id, image).images);
            assert(self@.order =~= before.with(id, image).order);
            lemma_push_ok(kept, id, image);
        }
        while total > self.capacity_bytes as u128 && self.order.len() > 1
            invariant
                self@.ok(),
                total == self@.bytes(),
                self.order@ == self@.order,
                self.capacity() == old(self).capacity(),
                self@.evicted(self.capacity()) == before.with(id, image).evicted(
                    old(self).capacity(),
                ),
            decreases self.order@.len(),
        {
            let ghost now = self@;
            let oldest: u64 = self.order[0];
            assert(now.order[0] == oldest);
            assert(now.order.remove(0) =~= now.order.drop_first());
            let freed: usize = self.forget(oldest);
            total = total - freed as u128;
            proof {
                lemma_without(now.order, oldest, 0);
                assert(self@.images =~= now.images.remove(oldest));
            }
        }
        proof {
            insertion_keeps_newest(before, id, image, old(self).capacity());
        }
        self.bytes_used = total as usize;
    }

    /// Drop an image, if it is there, and say how many bytes it took. They are
    /// still counted as used.
    fn forget(&mut self, id: u64) -> (freed: usize)
        requires
            old(self)@.ok(),
        ensures
            final(self)@.ok(),
            freed == old(self)@.held(id),
            final(self).bytes_used == old(self).bytes_used,
            final(self)@.images == old(self)@.images.remove(id),
            final(self)@.order == Images::without(old(self)@.order, id),
            !final(self)@.order.contains(id),
            final(self)@.bytes() == old(self)@.bytes() - old(self)@.held(id),
            final(self)@.order.len() <= old(self)@.order.len(),
            old(self)@.order.contains(id) ==> final(self)@.order.len() < old(self)@.order.len(),
            final(self).capacity() == old(self).capacity(),
    {
        broadcast use group_hash_axioms;

        let ghost before = self@;
        let n: usize = self.order.len();
        let mut k: usize = 0;
        while k < n && self.order[k] != id
            invariant
                *self == *old(self),
                k <= n == self.order@.len(),
                forall|i: int| 0 <= i < k ==> self.order@[i] != id,
            decreases n - k,
        {
            k = k + 1;
        }
        if k < n {
            proof {
                assert(before.order.contains(id));
                assert(before.images.dom().contains(id));
                lemma_bytes_without(before.images, before.order, k as int);
                lemma_without(before.order, id, k as int);
            }
            let dropped = self.images.remove(&id);
            let freed: usize = match dropped {
                Some(entry) => {
                    assert(entry@ == before.images[id]);
                    entry.pixels.len()
                },
                None => 0,
            };
            let _id: u64 = self.order.remove(k);
            proof {
                assert(self@.order =~= before.order.remove(k as int));
                assert(self@.images =~= before.images.remove(id));
                lemma_remove_ok(before, k as int);
                lemma_bytes_remove(before.images, before.order.remove(k as int), id);
            }
            freed
        } else {
            proof {
                assert(!before.order.contains(id));
                lemma_without_absent(before.order, id);
                assert(before.images.remove(id) =~= before.images);
            }
            0
        }
    }
}

impl Default for GlzWindow {
    /// 256 MiB: generous enough that several large frames plus a long tail of
    /// thousands of small icon strips fits comfortably.
    fn default() -> (w: Self)
        ensures
            w.wf(),
            w@.order == Seq::<u64>::empty(),
            w@.images == Map::<u64, Image>::empty(),
            w.capacity() == 268435456,
    {
        Self::new(268435456)
    }
}

proof fn lemma_push_ok(w: Images, id: u64, image: Image)
    requires
        w.ok(),
        !w.order.contains(id),
    ensures
        (Images { order: w.order.push(id), images: w.images.insert(id, image) }).ok(),
{
    let order = w.order.push(id);
    let images = w.images.insert(id, image);
    assert forall|x: u64| order.contains(x) <==> #[trigger] images.dom().contains(x) by {
        if order.contains(x) {
            let k = choose|k: int| 0 <= k < order.len() && order[k] == x;
            if k < w.order.len() {
                assert(w.order[k] == x);
                assert(w.order.contains(x));
                assert(w.images.dom().contains(x));
            }
        }
        if images.dom().contains(x) {
            if x == id {
                assert(order[w.order.len() as int] == id);
            } else {
                assert(w.images.dom().contains(x));
                let k = choose|k: int| 0 <= k < w.order.len() && w.order[k] == x;
                assert(order[k] == x);
            }
        }
    }
    assert(order.no_duplicates()) by {
        assert forall|i: int, j: int|
            0 <= i < order.len() && 0 <= j < order.len() && i != j implies order[i]
            != order[j] by {
            if i < w.order.len() && j < w.order.len() {
                assert(w.order[i] != w.order[j]);
            } else if i < w.order.len() {
                assert(w.order.contains(w.order[i]));
            } else {
                assert(w.order.contains(w.order[j]));
            }
        }
    }
}

proof fn lemma_remove_ok(w: Images, k: int)
    requires
        w.ok(),
        0 <= k < w.order.len(),
    ensures
        (Images { order: w.order.remove(k), images: w.images.remove(w.order[k]) }).ok(),
        !w.order.remove(k).contains(w.order[k]),
{
    let id = w.order[k];
    let order = w.order.remove(k);
    let images = w.images.remove(id);
    assert(forall|i: int| 0 <= i < order.len() ==> order[i] == w.order[if i < k { i } else { i + 1 }]);
    assert(!order.contains(id)) by {
        if order.contains(id) {
            let i = choose|i: int| 0 <= i < order.len() && order[i] == id;
            assert(w.order[if i < k { i } else { i + 1 }] == id);
        }
    }
    assert forall|x: u64| order.contains(x) <==> #[trigger] images.dom().contains(x) by {
        if order.contains(x) {
            let i = choose|i: int| 0 <= i < order.len() && order[i] == x;
            let j = if i < k { i } else { i + 1 };
            assert(w.order[j] == x);
            assert(w.order.contains(x));
            assert(w.images.dom().contains(x));
        }
        if images.dom().contains(x) {
            assert(w.images.dom().contains(x));
            let i = choose|i: int| 0 <= i < w.order.len() && w.order[i] == x;
            assert(i != k);
            let j = if i < k { i } else { i - 1 };
            assert(order[j] == x);
        }
    }
    assert(order.no_duplicates()) by {
        assert forall|i: int, j: int|
            0 <= i < order.len() && 0 <= j < order.len() && i != j implies order[i]
            != order[j] by {
            let a = if i < k { i } else { i + 1 };
            let b = if j < k { j } else { j + 1 };
            assert(w.order[a] != w.order[b]);
        }
    }
}

/// Evicting keeps the newest image, and only ever drops older ones first.
pub proof fn eviction_is_oldest_first(w: Images, capacity: nat)
    requires
        w.ok(),
        w.order.len() > 0,
    ensures
        ({
            let e = w.evicted(capacity);
            &&& e.ok()
            &&& e.order.len() > 0
            &&& exists|k: int| 0 <= k < w.order.len() && e.order == #[trigger] w.order.skip(k)
            &&& e.order.last() == w.order.last()
            &&& forall|id: u64|
                e.images.dom().contains(id) ==> w.images.dom().contains(id) && e.images[id]
                    == w.images[id]
            &&& (e.bytes() <= capacity || e.order.len() == 1)
        }),
    decreases w.order.len(),
{
    if w.bytes() > capacity && w.order.len() > 1 {
        let next = Images { order: w.order.drop_first(), images: w.images.remove(w.order[0]) };
        assert(w.order.remove(0) =~= w.order.drop_first());
        lemma_remove_ok(w, 0);
        eviction_is_oldest_first(next, capacity);
        let e = next.evicted(capacity);
        let k = choose|k: int| 0 <= k < next.order.len() && e.order == #[trigger] next.order.skip(k);
        assert(next.order.skip(k) =~= w.order.skip(k + 1));
    } else {
        assert(w.order.skip(0) =~= w.order);
    }
}

/// Evicting drops no more than it has to: what survives and the youngest image
/// that was dropped are over the budget together.
pub proof fn eviction_is_least(w: Images, capacity: nat)
    requires
        w.ok(),
        w.order.len() > 0,
    ensures
        ({
            let e = w.evicted(capacity);
            let k = w.order.len() - e.order.len();
            &&& 0 <= k < w.order.len()
            &&& e.order == w.order.skip(k)
            &&& k > 0 ==> e.bytes() + w.images[w.order[k - 1]].pixels.len() > capacity
        }),
    decreases w.order.len(),
{
    if w.bytes() > capacity && w.order.len() > 1 {
        let oldest = w.order[0];
        let next = Images { order: w.order.drop_first(), images: w.images.remove(oldest) };
        assert(w.order.remove(0) =~= w.order.drop_first());
        lemma_remove_ok(w, 0);
        lemma_bytes_remove(w.images, next.order, oldest);
        eviction_is_least(next, capacity);
        let e = next.evicted(capacity);
        let k = next.order.len() - e.order.len();
        assert(next.order.skip(k) =~= w.order.skip(k + 1));
        if k > 0 {
            assert(next.order[k - 1] == w.order[k]);
            assert(next.images.dom().contains(next.order[k - 1])) by {
                assert(next.order.contains(next.order[k - 1]));
            }
        } else if next.bytes() > capacity && next.order.len() > 1 {
            // Evicting from `next` would have left fewer.
            let after = Images {
                order: next.order.drop_first(),
                images: next.images.remove(next.order[0]),
            };
            assert(next.order.remove(0) =~= next.order.drop_first());
            lemma_remove_ok(next, 0);
            eviction_is_least(after, capacity);
        }
    } else {
        assert(w.order.skip(0) =~= w.order);
    }
}

/// A window is as sound after an image was added as before.
proof fn lemma_with_ok(w: Images, id: u64, image: Image)
    requires
        w.ok(),
    ensures
        w.with(id, image).ok(),
{
    let kept = Images { order: Images::without(w.order, id), images: w.images.remove(id) };
    if w.order.contains(id) {
        let k = choose|k: int| 0 <= k < w.order.len() && w.order[k] == id;
        lemma_without(w.order, id, k);
        lemma_remove_ok(w, k);
    } else {
        lemma_without_absent(w.order, id);
        assert(w.images.remove(id) =~= w.images);
    }
    lemma_push_ok(kept, id, image);
    assert(kept.images.insert(id, image) =~= w.with(id, image).images);
}

/// Adding an image evicts no more than it has to: of the images, oldest first
/// and the added one last, the oldest go; what survives and the youngest that
/// went are over the budget together.
pub proof fn insertion_evicts_least(w: Images, id: u64, image: Image, capacity: nat)
    requires
        w.ok(),
    ensures
        ({
            let a = w.with(id, image);
            let e = a.evicted(capacity);
            let k = a.order.len() - e.order.len();
            &&& 0 <= k < a.order.len()
            &&& e.order == a.order.skip(k)
            &&& k > 0 ==> e.bytes() + a.images[a.order[k - 1]].pixels.len() > capacity
        }),
{
    lemma_with_ok(w, id, image);
    eviction_is_least(w.with(id, image), capacity);
}

/// An image that was just added is there, as it was added, and the budget
/// holds unless it is the only one: what is stored is never more than the
/// budget or the one image.
pub proof fn insertion_keeps_newest(w: Images, id: u64, image: Image, capacity: nat)
    requires
        w.ok(),
    ensures
        ({
            let e = w.with(id, image).evicted(capacity);
            &&& e.ok()
            &&& e.images.dom().contains(id)
            &&& e.images[id] == image
            &&& e.order.last() == id
            &&& (e.bytes() <= capacity || e.order == seq![id])
            &&& (e.bytes() <= capacity || e.bytes() == image.pixels.len())
        }),
{
    lemma_with_ok(w, id, image);
    let after = w.with(id, image);
    eviction_is_oldest_first(after, capacity);
    let e = after.evicted(capacity);
    assert(e.order.contains(e.order.last()));
    if e.order.len() == 1 {
        assert(e.order =~= seq![id]);
        reveal_with_fuel(Images::bytes_of, 2);
        assert(e.order.drop_first().len() == 0);
    }
}

} // verus!
