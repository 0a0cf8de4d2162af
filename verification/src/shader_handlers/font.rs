use vstd::prelude::*;

use crate::bytes::{bytes_equal, split_bytes, split_on, vviews};

verus! {

/// Index of the left padding in a font's `padding` values.
pub const PAD_LEFT: usize = 1;

/// Index of the right padding in a font's `padding` values.
pub const PAD_RIGHT: usize = 3;

/// Index of the top padding in a font's `padding` values.
pub const PAD_TOP: usize = 0;

/// Index of the bottom padding in a font's `padding` values.
pub const PAD_BOTTOM: usize = 2;

/// The number of frames a text may go undrawn before its buffer is freed.
pub const UNUSED_FRAMES_KEPT: u32 = 600;

/// The `name=value` pairs read so far from a bitmap font's description file. A later
/// line's value replaces an earlier one of the same name.
pub struct FontValues {
    values: Vec<(Vec<u8>, Vec<u8>)>,
}

/// The names are distinct.
pub open spec fn distinct_names(v: Seq<(Vec<u8>, Vec<u8>)>) -> bool {
    forall|i: int, j: int| 0 <= i < j < v.len() ==> (#[trigger] v[i]).0@ != (#[trigger] v[j]).0@
}

/// The value stored under each name.
pub open spec fn values_map(v: Seq<(Vec<u8>, Vec<u8>)>) -> Map<Seq<u8>, Seq<u8>> {
    Map::new(
        |k: Seq<u8>| exists|i: int| 0 <= i < v.len() && (#[trigger] v[i]).0@ == k,
        |k: Seq<u8>| v[choose|i: int| 0 <= i < v.len() && (#[trigger] v[i]).0@ == k].1@,
    )
}

/// The pairs after reading the words of one line: every word made of exactly two
/// parts around `=` sets its name to its value, from the first word to the last.
pub open spec fn read_words(m: Map<Seq<u8>, Seq<u8>>, words: Seq<Seq<u8>>) -> Map<Seq<u8>, Seq<u8>>
    decreases words.len(),
{
    if words.len() == 0 {
        m
    } else {
        let parts = split_on(words[0], 61u8);
        let next = if parts.len() == 2 {
            m.insert(parts[0], parts[1])
        } else {
            m
        };
        read_words(next, words.drop_first())
    }
}

/// The pairs after reading a line: its words are separated by single spaces.
pub open spec fn read_line(m: Map<Seq<u8>, Seq<u8>>, line: Seq<u8>) -> Map<Seq<u8>, Seq<u8>> {
    read_words(m, split_on(line, 32u8))
}

/// The comma-separated parts of the value stored under `name`; none when there is no
/// such value.
pub open spec fn value_parts(m: Map<Seq<u8>, Seq<u8>>, name: Seq<u8>) -> Seq<Seq<u8>> {
    if m.contains_key(name) {
        split_on(m[name], 44u8)
    } else {
        seq![]
    }
}

impl View for FontValues {
    type V = Map<Seq<u8>, Seq<u8>>;

    closed spec fn view(&self) -> Map<Seq<u8>, Seq<u8>> {
        values_map(self.values@)
    }
}

impl FontValues {
    /// The stored pairs have distinct names.
    pub closed spec fn wf(&self) -> bool {
        distinct_names(self.values@)
    }

    pub fn new() -> (r: FontValues)
        ensures
            r.wf(),
            r@ == Map::<Seq<u8>, Seq<u8>>::empty(),
    {
        let r = FontValues { values: Vec::new() };
        assert(r@ =~= Map::<Seq<u8>, Seq<u8>>::empty());
        r
    }

    fn position_of(&self, name: &[u8]) -> (r: Option<usize>)
        requires
            self.wf(),
        ensures
            match r {
                Some(i) => i < self.values@.len() && self.values@[i as int].0@ == name@,
                None => !self@.contains_key(name@),
            },
    {
        let mut i: usize = 0;
        while i < self.values.len()
            invariant
                i <= self.values@.len(),
                forall|k: int| 0 <= k < i ==> (#[trigger] self.values@[k]).0@ != name@,
            decreases self.values@.len() - i,
        {
            if bytes_equal(&self.values[i].0, name) {
                return Some(i);
            }
            i = i + 1;
        }
        None
    }

    /// Sets `name` to `value`.
    pub fn insert(&mut self, name: Vec<u8>, value: Vec<u8>)
        requires
            old(self).wf(),
        ensures
            final(self).wf(),
            final(self)@ == old(self)@.insert(name@, value@),
    {
        let ghost n = name@;
        let ghost v = value@;
        match self.position_of(&name) {
            Some(i) => {
                let ghost before = self.values@;
                self.values.set(i, (name, value));
                proof {
                    assert(distinct_names(self.values@)) by {
                        assert forall|a: int, b: int| 0 <= a < b < self.values@.len() implies (
                        #[trigger] self.values@[a]).0@ != (#[trigger] self.values@[b]).0@ by {
                            if a != i && b != i {
                                assert(before[a].0@ != before[b].0@);
                            } else if a == i {
                                assert(before[a].0@ != before[b].0@);
                            } else {
                                assert(before[a].0@ != before[b].0@);
                            }
                        }
                    }
                    assert forall|k: Seq<u8>| #[trigger] self@.contains_key(k) == old(self)@.insert(n, v).contains_key(k) by {
                        if old(self)@.contains_key(k) {
                            let j = choose|j: int| 0 <= j < before.len() && (#[trigger] before[j]).0@ == k;
                            assert(self.values@[j].0@ == k);
                        }
                        if self@.contains_key(k) {
                            let j = choose|j: int| 0 <= j < self.values@.len() && (#[trigger] self.values@[j]).0@ == k;
                            if j != i {
                                assert(before[j].0@ == k);
                            }
                        }
                    }
                    assert forall|k: Seq<u8>| #[trigger] self@.contains_key(k) implies self@[k] == old(self)@.insert(n, v)[k] by {
                        let j = choose|j: int| 0 <= j < self.values@.len() && (#[trigger] self.values@[j]).0@ == k;
                        if j != i {
                            assert(before[j].0@ == k);
                            let j2 = choose|j2: int| 0 <= j2 < before.len() && (#[trigger] before[j2]).0@ == k;
                            assert(j2 == j);
                        }
                    }
                    assert(self@ =~= old(self)@.insert(n, v));
                }
            },
            None => {
                let ghost before = self.values@;
                self.values.push((name, value));
                proof {
                    let last = before.len() as int;
                    assert(distinct_names(self.values@)) by {
                        assert forall|a: int, b: int| 0 <= a < b < self.values@.len() implies (
                        #[trigger] self.values@[a]).0@ != (#[trigger] self.values@[b]).0@ by {
                            if b == last {
                                assert(self.values@[a] == before[a]);
                                assert(!old(self)@.contains_key(n));
                                if before[a].0@ == n {
                                    assert(old(self)@.contains_key(n));
                                }
                            } else {
                                assert(before[a].0@ != before[b].0@);
                            }
                        }
                    }
                    assert forall|k: Seq<u8>| #[trigger] self@.contains_key(k) == old(self)@.insert(n, v).contains_key(k) by {
                        if old(self)@.contains_key(k) {
                            let j = choose|j: int| 0 <= j < before.len() && (#[trigger] before[j]).0@ == k;
                            assert(self.values@[j].0@ == k);
                        }
                        if k == n {
                            assert(self.values@[last].0@ == k);
                        }
                        if self@.contains_key(k) {
                            let j = choose|j: int| 0 <= j < self.values@.len() && (#[trigger] self.values@[j]).0@ == k;
                            if j != last {
                                assert(before[j].0@ == k);
                            }
                        }
                    }
                    assert forall|k: Seq<u8>| #[trigger] self@.contains_key(k) implies self@[k] == old(self)@.insert(n, v)[k] by {
                        let j = choose|j: int| 0 <= j < self.values@.len() && (#[trigger] self.values@[j]).0@ == k;
                        if j != last {
                            assert(before[j].0@ == k);
                            let j2 = choose|j2: int| 0 <= j2 < before.len() && (#[trigger] before[j2]).0@ == k;
                            assert(j2 == j);
                        } else {
                            if k != n {
                            }
                        }
                    }
                    assert(self@ =~= old(self)@.insert(n, v));
                }
            },
        }
    }

    /// Reads the `name=value` pairs of one line of the description file.
    pub fn process_line(&mut self, line: &[u8])
        requires
            old(self).wf(),
        ensures
            final(self).wf(),
            final(self)@ == read_line(old(self)@, line@),
    {
        let words = split_bytes(line, 32u8);
        let ghost all = vviews(words@);
        let mut i: usize = 0;
        assert(all.skip(0) =~= all);
        while i < words.len()
            invariant
                self.wf(),
                all == vviews(words@),
                all == split_on(line@, 32u8),
                i <= words@.len(),
                read_words(self@, all.skip(i as int)) == read_line(old(self)@, line@),
            decreases words@.len() - i,
        {
            let parts = split_bytes(&words[i], 61u8);
            proof {
                assert(all[i as int] == words@[i as int]@);
                assert(all.skip(i as int).drop_first() =~= all.skip(i + 1));
                assert(all.skip(i as int)[0] == all[i as int]);
            }
            if parts.len() == 2 {
                let name = parts[0].clone();
                let value = parts[1].clone();
                assert(name@ == vviews(parts@)[0]);
                assert(value@ == vviews(parts@)[1]);
                self.insert(name, value);
            }
            i = i + 1;
        }
    }

    /// The comma-separated parts of the value stored under `var`, as text; none when
    /// there is no such value.
    pub fn get_values_of_variables(&self, var: &[u8]) -> (r: Vec<Vec<u8>>)
        requires
            self.wf(),
        ensures
            vviews(r@) == value_parts(self@, var@),
    {
        match self.position_of(var) {
            Some(i) => {
                proof {
                    let k = var@;
                    assert(self@.contains_key(k));
                    let j = choose|j: int| 0 <= j < self.values@.len() && (#[trigger] self.values@[j]).0@ == k;
                    assert(j == i);
                }
                split_bytes(&self.values[i].1, 44u8)
            },
            None => {
                let r: Vec<Vec<u8>> = Vec::new();
                assert(vviews(r@) =~= Seq::<Seq<u8>>::empty());
                r
            },
        }
    }
}

/// The horizontal and vertical padding of a font: left plus right, and top plus bottom.
pub fn padding_size(padding: &Vec<i32>) -> (r: (i32, i32))
    requires
        padding@.len() >= 4,
        i32::MIN <= padding@[1] + padding@[3] <= i32::MAX,
        i32::MIN <= padding@[0] + padding@[2] <= i32::MAX,
    ensures
        r.0 == padding@[1] + padding@[3],
        r.1 == padding@[0] + padding@[2],
{
    let width = padding[PAD_LEFT] + padding[PAD_RIGHT];
    let height = padding[PAD_TOP] + padding[PAD_BOTTOM];
    (width, height)
}

/// A text shown on screen: what it reads, and what the renderer keeps for it.
pub type TextEntry<T> = (String, T);

/// Some name in `names` reads `text`.
pub open spec fn drawn(names: Seq<String>, text: Seq<char>) -> bool {
    exists|k: int| 0 <= k < names.len() && (#[trigger] names[k])@ == text
}

/// The undrawn texts that stay after a frame, in order, each one frame older.
pub open spec fn aged<T>(unused: Seq<(TextEntry<T>, u32)>) -> Seq<(TextEntry<T>, u32)>
    decreases unused.len(),
{
    if unused.len() == 0 {
        seq![]
    } else {
        let rest = aged(unused.drop_first());
        let (e, frames) = unused[0];
        if frames + 1 <= UNUSED_FRAMES_KEPT {
            seq![(e, (frames + 1) as u32)] + rest
        } else {
            rest
        }
    }
}

/// What the undrawn texts that have waited too long hold, from the last to the first.
pub open spec fn expired<T>(unused: Seq<(TextEntry<T>, u32)>) -> Seq<T>
    decreases unused.len(),
{
    if unused.len() == 0 {
        seq![]
    } else {
        let rest = expired(unused.drop_first());
        let (e, frames) = unused[0];
        if frames + 1 <= UNUSED_FRAMES_KEPT {
            rest
        } else {
            rest.push(e.1)
        }
    }
}

/// The texts drawn this frame, in order.
pub open spec fn still_drawn<T>(text: Seq<TextEntry<T>>, names: Seq<String>) -> Seq<TextEntry<T>>
    decreases text.len(),
{
    if text.len() == 0 {
        seq![]
    } else {
        let rest = still_drawn(text.drop_first(), names);
        if drawn(names, text[0].0@) {
            seq![text[0]] + rest
        } else {
            rest
        }
    }
}

/// The texts not drawn this frame, from the last to the first, each starting to wait.
pub open spec fn set_aside<T>(text: Seq<TextEntry<T>>, names: Seq<String>) -> Seq<(TextEntry<T>, u32)>
    decreases text.len(),
{
    if text.len() == 0 {
        seq![]
    } else {
        let rest = set_aside(text.drop_first(), names);
        if drawn(names, text[0].0@) {
            rest
        } else {
            rest.push((text[0], 0u32))
        }
    }
}

/// The texts a font renders: those drawn lately, and those not drawn for a while, with
/// the number of frames each has waited.
pub struct TextMaster<T> {
    text: Vec<TextEntry<T>>,
    unused_text: Vec<(TextEntry<T>, u32)>,
}

/// The texts of a [`TextMaster`]: shown ones in order, and waiting ones with their count
/// of frames.
pub struct TextMasterView<T> {
    pub text: Seq<TextEntry<T>>,
    pub unused: Seq<(TextEntry<T>, u32)>,
}

impl<T> View for TextMaster<T> {
    type V = TextMasterView<T>;

    closed spec fn view(&self) -> TextMasterView<T> {
        TextMasterView { text: self.text@, unused: self.unused_text@ }
    }
}

/// No waiting text has waited longer than the texts are kept.
pub open spec fn waits_bounded<T>(unused: Seq<(TextEntry<T>, u32)>) -> bool {
    forall|k: int| 0 <= k < unused.len() ==> (#[trigger] unused[k]).1 <= UNUSED_FRAMES_KEPT
}

proof fn lemma_aged_bounded<T>(unused: Seq<(TextEntry<T>, u32)>)
    ensures
        waits_bounded(aged(unused)),
    decreases unused.len(),
{
    if unused.len() > 0 {
        lemma_aged_bounded(unused.drop_first());
    }
}

proof fn lemma_set_aside_fresh<T>(text: Seq<TextEntry<T>>, names: Seq<String>)
    ensures
        forall|k: int| 0 <= k < set_aside(text, names).len() ==> (#[trigger] set_aside(text, names)[k]).1 == 0,
    decreases text.len(),
{
    if text.len() > 0 {
        lemma_set_aside_fresh(text.drop_first(), names);
        let rest = set_aside(text.drop_first(), names);
        assert forall|k: int| 0 <= k < set_aside(text, names).len() implies (#[trigger] set_aside(text, names)[k]).1 == 0 by {
            if k < rest.len() {
                assert(set_aside(text, names)[k] == rest[k]);
            }
        }
    }
}

proof fn lemma_still_drawn<T>(text: Seq<TextEntry<T>>, names: Seq<String>)
    ensures
        forall|k: int| 0 <= k < still_drawn(text, names).len() ==> drawn(names, (#[trigger] still_drawn(text, names)[k]).0@),
    decreases text.len(),
{
    if text.len() > 0 {
        lemma_still_drawn(text.drop_first(), names);
        let rest = still_drawn(text.drop_first(), names);
        if drawn(names, text[0].0@) {
            assert forall|k: int| 0 <= k < still_drawn(text, names).len() implies drawn(names, (#[trigger] still_drawn(text, names)[k]).0@) by {
                if k > 0 {
                    assert(still_drawn(text, names)[k] == rest[k - 1]);
                }
            }
        }
    }
}

/// Whether some name in `names` reads `text`.
fn is_drawn(names: &Vec<String>, text: &String) -> (r: bool)
    ensures
        r == drawn(names@, text@),
{
    let mut k: usize = 0;
    while k < names.len()
        invariant
            k <= names.len(),
            forall|m: int| 0 <= m < k ==> (#[trigger] names@[m])@ != text@,
        decreases names.len() - k,
    {
        if names[k] == *text {
            return true;
        }
        k = k + 1;
    }
    false
}

impl<T> TextMaster<T> {
    /// The waiting texts have waited no longer than the texts are kept.
    pub closed spec fn wf(&self) -> bool {
        waits_bounded(self.unused_text@)
    }

    pub fn new() -> (r: TextMaster<T>)
        ensures
            r.wf(),
            r@.text == Seq::<TextEntry<T>>::empty(),
            r@.unused == Seq::<(TextEntry<T>, u32)>::empty(),
    {
        TextMaster { text: Vec::new(), unused_text: Vec::new() }
    }

    /// The texts shown lately, in order.
    pub fn text(&self) -> (r: &Vec<TextEntry<T>>)
        ensures
            r@ == self@.text,
    {
        &self.text
    }

    /// The texts waiting to be drawn again, with the frames each has waited.
    pub fn unused_text(&self) -> (r: &Vec<(TextEntry<T>, u32)>)
        ensures
            r@ == self@.unused,
    {
        &self.unused_text
    }

    /// Shows a new text.
    pub fn push_text(&mut self, name: String, payload: T)
        requires
            old(self).wf(),
        ensures
            final(self).wf(),
            final(self)@.text == old(self)@.text.push((name, payload)),
            final(self)@.unused == old(self)@.unused,
    {
        self.text.push((name, payload));
    }

    /// What the renderer keeps for shown text `i`, to be changed in place.
    pub fn text_payload_mut(&mut self, i: usize) -> (r: &mut T)
        requires
            old(self).wf(),
            i < old(self)@.text.len(),
        ensures
            *r == old(self)@.text[i as int].1,
            final(self).wf(),
            final(self)@.unused == old(self)@.unused,
            final(self)@.text == old(self)@.text.update(i as int, (old(self)@.text[i as int].0, *final(r))),
    {
        &mut self.text[i].1
    }

    /// Shows waiting text `i` again, after the shown ones.
    pub fn revive_unused(&mut self, i: usize)
        requires
            old(self).wf(),
            i < old(self)@.unused.len(),
        ensures
            final(self).wf(),
            final(self)@.text == old(self)@.text.push(old(self)@.unused[i as int].0),
            final(self)@.unused == old(self)@.unused.remove(i as int),
    {
        let (entry, _frames) = self.unused_text.remove(i);
        self.text.push(entry);
    }

    /// Stops showing text `i`, and gives it back.
    pub fn remove_text_at(&mut self, i: usize) -> (r: TextEntry<T>)
        requires
            old(self).wf(),
            i < old(self)@.text.len(),
        ensures
            final(self).wf(),
            r == old(self)@.text[i as int],
            final(self)@.text == old(self)@.text.remove(i as int),
            final(self)@.unused == old(self)@.unused,
    {
        self.text.remove(i)
    }

    /// Stops showing every text, and gives back what was kept for them, from the last to
    /// the first.
    pub fn remove_all_text(&mut self) -> (r: Vec<T>)
        requires
            old(self).wf(),
        ensures
            final(self).wf(),
            final(self)@.text == Seq::<TextEntry<T>>::empty(),
            final(self)@.unused == old(self)@.unused,
            r.len() == old(self)@.text.len(),
            forall|k: int| 0 <= k < r.len() ==> #[trigger] r@[k] == old(self)@.text[old(self)@.text.len() - 1 - k].1,
    {
        let ghost t0 = self.text@;
        let mut r: Vec<T> = Vec::new();
        while self.text.len() > 0
            invariant
                waits_bounded(self.unused_text@),
                self.unused_text@ == old(self)@.unused,
                self.text@ == t0.take(self.text@.len() as int),
                self.text@.len() + r.len() == t0.len(),
                forall|k: int| 0 <= k < r.len() ==> #[trigger] r@[k] == t0[t0.len() - 1 - k].1,
            decreases self.text.len(),
        {
            let last = self.text.len() - 1;
            let (_name, payload) = self.text.remove(last);
            r.push(payload);
            assert(self.text@ =~= t0.take(self.text@.len() as int));
        }
        r
    }

    /// Ends a frame in which the texts reading `text_this_draw` were drawn: every waiting
    /// text waits one frame more, and those that have waited too long are dropped; then
    /// every shown text not drawn starts to wait, from the last to the first. Gives back
    /// what was kept for the dropped texts.
    pub fn remove_unused_text(&mut self, text_this_draw: &Vec<String>) -> (r: Vec<T>)
        requires
            old(self).wf(),
        ensures
            final(self).wf(),
            r@ == expired(old(self)@.unused),
            final(self)@.text == still_drawn(old(self)@.text, text_this_draw@),
            final(self)@.unused == aged(old(self)@.unused) + set_aside(old(self)@.text, text_this_draw@),
            forall|k: int| 0 <= k < final(self)@.text.len() ==> drawn(text_this_draw@, (#[trigger] final(self)@.text[k]).0@),
    {
        let ghost u0 = self.unused_text@;
        let ghost t0 = self.text@;
        let mut r: Vec<T> = Vec::new();
        let mut i: usize = self.unused_text.len();
        assert(u0.skip(i as int) =~= Seq::<(TextEntry<T>, u32)>::empty());
        assert(u0.take(i as int) =~= u0);
        while i > 0
            invariant
                i <= u0.len(),
                waits_bounded(u0),
                self.unused_text@ == u0.take(i as int) + aged(u0.skip(i as int)),
                r@ == expired(u0.skip(i as int)),
                self.text@ == t0,
            decreases i,
        {
            i = i - 1;
            assert(u0.skip(i as int).drop_first() =~= u0.skip(i + 1));
            assert(u0.skip(i as int)[0] == u0[i as int]);
            assert(self.unused_text@[i as int] == u0[i as int]);
            let frames = self.unused_text[i].1;
            assert(frames <= UNUSED_FRAMES_KEPT);
            let frames = frames + 1;
            if frames > UNUSED_FRAMES_KEPT {
                let ((_name, payload), _f) = self.unused_text.remove(i);
                r.push(payload);
                assert(self.unused_text@ =~= u0.take(i as int) + aged(u0.skip(i as int)));
            } else {
                let (entry, _f) = self.unused_text.remove(i);
                self.unused_text.insert(i, (entry, frames));
                assert(self.unused_text@ =~= u0.take(i as int) + aged(u0.skip(i as int)));
            }
        }
        assert(u0.skip(0) =~= u0);
        assert(u0.take(0) =~= Seq::<(TextEntry<T>, u32)>::empty());
        let ghost u1 = self.unused_text@;
        assert(u1 =~= aged(u0));
        let mut i: usize = self.text.len();
        assert(t0.skip(i as int) =~= Seq::<TextEntry<T>>::empty());
        assert(t0.take(i as int) =~= t0);
        while i > 0
            invariant
                i <= t0.len(),
                u1 == aged(u0),
                self.text@ == t0.take(i as int) + still_drawn(t0.skip(i as int), text_this_draw@),
                self.unused_text@ == u1 + set_aside(t0.skip(i as int), text_this_draw@),
                r@ == expired(u0),
            decreases i,
        {
            i = i - 1;
            assert(t0.skip(i as int).drop_first() =~= t0.skip(i + 1));
            assert(t0.skip(i as int)[0] == t0[i as int]);
            assert(self.text@[i as int] == t0[i as int]);
            let keep = is_drawn(text_this_draw, &self.text[i].0);
            if !keep {
                let entry = self.text.remove(i);
                self.unused_text.push((entry, 0));
            }
            assert(self.text@ =~= t0.take(i as int) + still_drawn(t0.skip(i as int), text_this_draw@));
            assert(self.unused_text@ =~= u1 + set_aside(t0.skip(i as int), text_this_draw@));
        }
        assert(t0.skip(0) =~= t0);
        assert(t0.take(0) =~= Seq::<TextEntry<T>>::empty());
        assert(self.text@ =~= still_drawn(t0, text_this_draw@));
        proof {
            lemma_aged_bounded(u0);
            lemma_set_aside_fresh(t0, text_this_draw@);
            lemma_still_drawn(t0, text_this_draw@);
            let a = aged(u0);
            let b = set_aside(t0, text_this_draw@);
            assert forall|k: int| 0 <= k < self.unused_text@.len() implies (#[trigger] self.unused_text@[k]).1 <= UNUSED_FRAMES_KEPT by {
                if k < a.len() {
                    assert(self.unused_text@[k] == a[k]);
                } else {
                    assert(self.unused_text@[k] == b[k - a.len()]);
                }
            }
        }
        r
    }
}

proof fn lemma_aged_expired_count<T>(unused: Seq<(TextEntry<T>, u32)>)
    ensures
        aged(unused).len() + expired(unused).len() == unused.len(),
    decreases unused.len(),
{
    if unused.len() > 0 {
        lemma_aged_expired_count(unused.drop_first());
    }
}

proof fn lemma_drawn_aside_count<T>(text: Seq<TextEntry<T>>, names: Seq<String>)
    ensures
        still_drawn(text, names).len() + set_aside(text, names).len() == text.len(),
    decreases text.len(),
{
    if text.len() > 0 {
        lemma_drawn_aside_count(text.drop_first(), names);
    }
}

/// Ending a frame loses no text: every text is still shown, waiting, or handed back for
/// its buffer to be freed.
pub proof fn lemma_remove_unused_text_loses_none<T>(
    text: Seq<TextEntry<T>>,
    unused: Seq<(TextEntry<T>, u32)>,
    names: Seq<String>,
)
    ensures
        still_drawn(text, names).len() + (aged(unused) + set_aside(text, names)).len()
            + expired(unused).len() == text.len() + unused.len(),
{
    lemma_aged_expired_count(unused);
    lemma_drawn_aside_count(text, names);
}

} // verus!
