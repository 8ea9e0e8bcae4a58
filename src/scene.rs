//! The sprites on the field, each known by a string identifier.
use vstd::prelude::*;
use crate::labels::{has_prefix, starts_with};

verus! {

/// A sprite: its identifier, its position and whether it takes part in
/// collision detection.
#[derive(Debug)]
pub struct Sprite {
    pub label: String,
    pub x: i64,
    pub y: i64,
    pub collision: bool,
}

/// A sprite as a value: identifier, x, y, collision flag.
pub type SpriteView = (Seq<char>, i64, i64, bool);

impl View for Sprite {
    type V = SpriteView;

    open spec fn view(&self) -> SpriteView {
        (self.label@, self.x, self.y, self.collision)
    }
}

impl Sprite {
    /// An independent copy of this sprite.
    pub fn duplicate(&self) -> (r: Sprite)
        ensures
            r@ == self@,
    {
        Sprite { label: self.label.clone(), x: self.x, y: self.y, collision: self.collision }
    }
}

/// The sprites in `s` other than those identified by `label`.
pub open spec fn without_label(s: Seq<SpriteView>, label: Seq<char>) -> Seq<SpriteView> {
    s.filter(|v: SpriteView| v.0 != label)
}

/// The sprites in `s` whose identifier does not start with `prefix`.
pub open spec fn without_prefix(s: Seq<SpriteView>, prefix: Seq<char>) -> Seq<SpriteView> {
    s.filter(|v: SpriteView| !has_prefix(v.0, prefix))
}

/// `s` with `v` added; a sprite of the same identifier is replaced.
pub open spec fn with_sprite(s: Seq<SpriteView>, v: SpriteView) -> Seq<SpriteView> {
    without_label(s, v.0).push(v)
}

/// A sprite moved by (`dx`, `dy`).
pub open spec fn shifted(v: SpriteView, dx: i64, dy: i64) -> SpriteView {
    (v.0, (v.1 + dx) as i64, (v.2 + dy) as i64, v.3)
}

/// `s` with every sprite identified by `label` moved by (`dx`, `dy`).
pub open spec fn moved(s: Seq<SpriteView>, label: Seq<char>, dx: i64, dy: i64) -> Seq<SpriteView> {
    s.map_values(|v: SpriteView| if v.0 == label { shifted(v, dx, dy) } else { v })
}

/// Some sprite of `s` is identified by `label`.
pub open spec fn has_label(s: Seq<SpriteView>, label: Seq<char>) -> bool {
    exists|i: int| 0 <= i < s.len() && s[i].0 == label
}

/// Moving the sprites identified by `label` stays within `i64`.
pub open spec fn can_move(s: Seq<SpriteView>, label: Seq<char>, dx: i64, dy: i64) -> bool {
    forall|i: int|
        0 <= i < s.len() && s[i].0 == label ==> i64::MIN <= s[i].1 + dx <= i64::MAX && i64::MIN
            <= s[i].2 + dy <= i64::MAX
}

/// The values of a sequence of sprites.
pub open spec fn views(s: Seq<Sprite>) -> Seq<SpriteView> {
    s.map_values(|s: Sprite| s@)
}

/// The set of sprites, in order of creation.
pub struct Scene {
    pub sprites: Vec<Sprite>,
}

impl View for Scene {
    type V = Seq<SpriteView>;

    open spec fn view(&self) -> Seq<SpriteView> {
        views(self.sprites@)
    }
}

impl Scene {
    /// A scene without sprites.
    pub fn new() -> (r: Scene)
        ensures
            r@ == Seq::<SpriteView>::empty(),
    {
        let r = Scene { sprites: Vec::new() };
        assert(r@ =~= Seq::<SpriteView>::empty());
        r
    }

    /// Removes the sprites identified by `label`; returns whether there was
    /// one. Removing an identifier that is absent changes nothing.
    pub fn remove(&mut self, label: &String) -> (found: bool)
        ensures
            final(self)@ == without_label(old(self)@, label@),
            found == has_label(old(self)@, label@),
    {
        let ghost start = self@;
        let mut kept: Vec<Sprite> = Vec::new();
        let mut found = false;
        let n = self.sprites.len();
        let mut i: usize = 0;
        while i < n
            invariant
                n == self.sprites.len(),
                self@ == start,
                i <= n,
                views(kept@) == without_label(start.take(i as int), label@),
                found == exists|j: int| 0 <= j < i && start[j].0 == label@,
            decreases n - i,
        {
            let sp = &self.sprites[i];
            assert(start.take(i + 1).drop_last() =~= start.take(i as int));
            assert(start.take(i + 1).last() == sp@);
            proof {
                reveal(Seq::filter);
            }
            assert(without_label(start.take(i + 1), label@) == if sp@.0 != label@ {
                without_label(start.take(i as int), label@).push(sp@)
            } else {
                without_label(start.take(i as int), label@)
            });
            if sp.label == *label {
                found = true;
            } else {
                let ghost before = kept@;
                kept.push(sp.duplicate());
                assert(views(kept@) =~= views(before).push(
                    sp@,
                ));
            }
            i = i + 1;
        }
        assert(start.take(n as int) =~= start);
        self.sprites = kept;
        found
    }

    /// Removes every sprite whose identifier starts with `prefix`.
    pub fn remove_prefixed(&mut self, prefix: &str)
        ensures
            final(self)@ == without_prefix(old(self)@, prefix@),
    {
        let ghost start = self@;
        let mut kept: Vec<Sprite> = Vec::new();
        let n = self.sprites.len();
        let mut i: usize = 0;
        while i < n
            invariant
                n == self.sprites.len(),
                self@ == start,
                i <= n,
                views(kept@) == without_prefix(start.take(i as int), prefix@),
            decreases n - i,
        {
            let sp = &self.sprites[i];
            assert(start.take(i + 1).drop_last() =~= start.take(i as int));
            assert(start.take(i + 1).last() == sp@);
            proof {
                reveal(Seq::filter);
            }
            assert(without_prefix(start.take(i + 1), prefix@) == if !has_prefix(sp@.0, prefix@) {
                without_prefix(start.take(i as int), prefix@).push(sp@)
            } else {
                without_prefix(start.take(i as int), prefix@)
            });
            if !starts_with(sp.label.as_str(), prefix) {
                let ghost before = kept@;
                kept.push(sp.duplicate());
                assert(views(kept@) =~= views(before).push(
                    sp@,
                ));
            }
            i = i + 1;
        }
        assert(start.take(n as int) =~= start);
        self.sprites = kept;
    }

    /// Adds `sprite`, replacing a sprite of the same identifier.
    pub fn add(&mut self, sprite: Sprite)
        ensures
            final(self)@ == with_sprite(old(self)@, sprite@),
    {
        self.remove(&sprite.label);
        let ghost before = self@;
        self.sprites.push(sprite);
        assert(self@ =~= before.push(sprite@));
    }

    /// Moves every sprite identified by `label` by (`dx`, `dy`).
    pub fn translate(&mut self, label: &String, dx: i64, dy: i64)
        requires
            can_move(old(self)@, label@, dx, dy),
        ensures
            final(self)@ == moved(old(self)@, label@, dx, dy),
    {
        let ghost start = self@;
        let mut out: Vec<Sprite> = Vec::new();
        let n = self.sprites.len();
        let mut i: usize = 0;
        while i < n
            invariant
                n == self.sprites.len(),
                self@ == start,
                can_move(start, label@, dx, dy),
                i <= n,
                views(out@) == moved(start.take(i as int), label@, dx, dy),
            decreases n - i,
        {
            let sp = &self.sprites[i];
            let mut next = sp.duplicate();
            assert(start[i as int] == sp@);
            if sp.label == *label {
                next.x = sp.x + dx;
                next.y = sp.y + dy;
            }
            let ghost before = out@;
            out.push(next);
            assert(start.take(i + 1) =~= start.take(i as int).push(sp@));
            assert(views(out@) =~= views(before).push(next@));
            assert(moved(start.take(i + 1), label@, dx, dy) =~= moved(start.take(i as int), label@, dx, dy).push(next@));
            i = i + 1;
        }
        assert(start.take(n as int) =~= start);
        self.sprites = out;
    }

    /// Whether some sprite is identified by `label`.
    pub fn contains(&self, label: &String) -> (r: bool)
        ensures
            r == has_label(self@, label@),
    {
        let n = self.sprites.len();
        let mut i: usize = 0;
        while i < n
            invariant
                n == self.sprites.len(),
                i <= n,
                forall|j: int| 0 <= j < i ==> self@[j].0 != label@,
            decreases n - i,
        {
            if self.sprites[i].label == *label {
                assert(self@[i as int].0 == label@);
                return true;
            }
            i = i + 1;
        }
        false
    }
}

/// Removing an identifier that no sprite has leaves the sprites as they are.
pub proof fn lemma_remove_absent(s: Seq<SpriteView>, label: Seq<char>)
    requires
        !has_label(s, label),
    ensures
        without_label(s, label) == s,
    decreases s.len(),
{
    if s.len() > 0 {
        assert(!has_label(s.drop_last(), label)) by {
            if has_label(s.drop_last(), label) {
                let i = choose|i: int| 0 <= i < s.drop_last().len() && s.drop_last()[i].0 == label;
                assert(s[i].0 == label);
            }
        }
        lemma_remove_absent(s.drop_last(), label);
        assert(s.last().0 != label) by {
            assert(s[s.len() - 1].0 != label);
        }
        reveal(Seq::filter);
        assert(without_label(s, label) == without_label(s.drop_last(), label).push(s.last()));
        assert(s.drop_last().push(s.last()) =~= s);
    }
}

/// After a removal no sprite of that identifier is left.
pub proof fn lemma_removed_absent(s: Seq<SpriteView>, label: Seq<char>)
    ensures
        !has_label(without_label(s, label), label),
{
    let r = without_label(s, label);
    broadcast use vstd::seq_lib::group_filter_ensures;
    if has_label(r, label) {
        let i = choose|i: int| 0 <= i < r.len() && r[i].0 == label;
        assert(r[i].0 != label);
    }
}

/// Removing an identifier a second time is a no-op.
pub proof fn lemma_remove_idempotent(s: Seq<SpriteView>, label: Seq<char>)
    ensures
        without_label(without_label(s, label), label) == without_label(s, label),
{
    lemma_removed_absent(s, label);
    lemma_remove_absent(without_label(s, label), label);
}

} // verus!
