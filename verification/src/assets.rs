use vstd::prelude::*;

use crate::decode::{
    png_buffer_size, png_decoded, png_error_text, png_header_reads, png_next_frame, png_output_buffer_size, png_read_info,
    PngFrame,
};
use crate::text::{decimal, push_decimal, compare_keys, lemma_lex_transitive, lemma_lex_trichotomy, lex_lt, str_eq, KeyOrder};

verus! {

/// A point in sprite-local pixel coordinates.
#[derive(Clone, Copy, Debug, Default, PartialEq, Eq, Structural)]
pub struct Point {
    pub x: i32,
    pub y: i32,
}

/// A named pose of the pet; each has an animation in the manifest.
#[derive(Clone, Copy, Debug, PartialEq, Eq, Structural)]
pub enum AnimationId {
    Idle,
    Blink,
    Walk,
    WalkDown,
    WalkUp,
    WalkLeft,
    WalkRight,
    Sit,
    Sleep,
    Happy,
    Poke,
    Dance,
}

impl AnimationId {
    /// The manifest key of each animation.
    pub open spec fn key_spec(self) -> Seq<char> {
        match self {
            AnimationId::Idle => "idle"@,
            AnimationId::Blink => "blink"@,
            AnimationId::Walk => "walk"@,
            AnimationId::WalkDown => "walk_down"@,
            AnimationId::WalkUp => "walk_up"@,
            AnimationId::WalkLeft => "walk_left"@,
            AnimationId::WalkRight => "walk_right"@,
            AnimationId::Sit => "sit"@,
            AnimationId::Sleep => "sleep"@,
            AnimationId::Happy => "happy"@,
            AnimationId::Poke => "poke"@,
            AnimationId::Dance => "dance"@,
        }
    }

    pub fn as_key(self) -> (key: &'static str)
        ensures
            key@ == self.key_spec(),
    {
        match self {
            AnimationId::Idle => "idle",
            AnimationId::Blink => "blink",
            AnimationId::Walk => "walk",
            AnimationId::WalkDown => "walk_down",
            AnimationId::WalkUp => "walk_up",
            AnimationId::WalkLeft => "walk_left",
            AnimationId::WalkRight => "walk_right",
            AnimationId::Sit => "sit",
            AnimationId::Sleep => "sleep",
            AnimationId::Happy => "happy",
            AnimationId::Poke => "poke",
            AnimationId::Dance => "dance",
        }
    }
}


/// Why loading the pet's assets failed, with a message.
#[derive(Debug)]
pub enum AssetError {
    Manifest(String),
    Png(String),
    InvalidSheet(String),
}

/// A rectangle in sprite-local pixels.
#[derive(Clone, Copy, Debug, Default, PartialEq, Eq, Structural)]
pub struct Rect {
    pub x: i32,
    pub y: i32,
    pub w: i32,
    pub h: i32,
}

impl Rect {
    /// The half-open box `[x, x + w) × [y, y + h)` contains the point.
    pub open spec fn contains_spec(self, px: int, py: int) -> bool {
        px >= self.x && py >= self.y && px < self.x + self.w && py < self.y + self.h
    }

    pub fn contains(&self, x: i32, y: i32) -> (r: bool)
        ensures
            r == self.contains_spec(x as int, y as int),
    {
        x >= self.x && y >= self.y && (x as i64) < (self.x as i64) + (self.w as i64) && (y as i64) < (
        self.y as i64) + (self.h as i64)
    }
}

/// A named area of the sprite that reacts to the pointer.
#[derive(Debug, PartialEq, Eq)]
pub struct HitZone {
    pub name: String,
    pub rect: Rect,
}

impl Clone for HitZone {
    fn clone(&self) -> (r: Self)
        ensures
            r@ == self@,
    {
        HitZone { name: self.name.clone(), rect: self.rect }
    }
}

/// One frame of an animation: its index on the sheet and how long it shows.
#[derive(Clone, Copy, Debug, PartialEq, Eq, Structural)]
pub struct FrameRef {
    pub index: u16,
    pub duration_ms: u16,
}

/// A frame shows for at least one millisecond.
pub open spec fn frame_duration(f: FrameRef) -> nat {
    if f.duration_ms > 0 { f.duration_ms as nat } else { 1 }
}

/// Sum of the frames' durations.
pub open spec fn total_duration(frames: Seq<FrameRef>) -> nat
    decreases frames.len(),
{
    if frames.len() == 0 {
        0
    } else {
        total_duration(frames.drop_last()) + frame_duration(frames.last())
    }
}

/// The frame showing `cursor` milliseconds into a run of frames, if the run is that long.
pub open spec fn frame_for(frames: Seq<FrameRef>, cursor: int) -> Option<u16>
    decreases frames.len(),
{
    if frames.len() == 0 {
        None
    } else if cursor < frame_duration(frames[0]) {
        Some(frames[0].index)
    } else {
        frame_for(frames.drop_first(), cursor - frame_duration(frames[0]))
    }
}

/// A prefix of a run of frames lasts no longer than the whole run.
pub proof fn lemma_total_duration_prefix(frames: Seq<FrameRef>, i: int)
    requires
        0 <= i <= frames.len(),
    ensures
        total_duration(frames.take(i)) <= total_duration(frames),
    decreases frames.len() - i,
{
    if i < frames.len() {
        lemma_total_duration_prefix(frames, i + 1);
        assert(frames.take(i + 1).drop_last() =~= frames.take(i));
    } else {
        assert(frames.take(i) =~= frames);
    }
}

/// A sequence of frames, played once or looped.
#[derive(Debug, PartialEq, Eq)]
pub struct AnimationSpec {
    pub frames: Vec<FrameRef>,
    pub looped: bool,
}

/// What an animation is: its frames and whether it loops.
pub struct AnimationView {
    pub frames: Seq<FrameRef>,
    pub looped: bool,
}

impl View for AnimationSpec {
    type V = AnimationView;

    open spec fn view(&self) -> AnimationView {
        AnimationView { frames: self.frames@, looped: self.looped }
    }
}

impl AnimationView {
    pub open spec fn total_spec(self) -> nat {
        total_duration(self.frames)
    }

    /// Where in the run of frames `elapsed_ms` falls: wrapped for a looping animation,
    /// held on the last millisecond otherwise.
    pub open spec fn cursor_spec(self, elapsed_ms: u64) -> int {
        let total = self.total_spec();
        if self.looped && total > 0 {
            (elapsed_ms as int) % (total as int)
        } else if elapsed_ms < total - 1 {
            elapsed_ms as int
        } else if total > 0 {
            total - 1
        } else {
            0
        }
    }

    /// The sheet index of the frame shown `elapsed_ms` into the animation.
    pub open spec fn frame_at_spec(self, elapsed_ms: u64) -> Option<u16> {
        if self.frames.len() == 0 {
            None
        } else {
            match frame_for(self.frames, self.cursor_spec(elapsed_ms)) {
                Some(index) => Some(index),
                None => Some(self.frames.last().index),
            }
        }
    }
}

impl AnimationSpec {
    /// Whether the frames' durations add up to at most `u64::MAX` milliseconds.
    pub fn total_fits(&self) -> (r: bool)
        ensures
            r == (self@.total_spec() <= u64::MAX),
    {
        let ghost frames = self.frames@;
        let mut total: u64 = 0;
        let n = self.frames.len();
        for i in 0..n
            invariant
                n == frames.len(),
                frames == self.frames@,
                total == total_duration(frames.take(i as int)),
        {
            proof {
                lemma_total_duration_prefix(frames, i + 1);
                assert(frames.take(i + 1).drop_last() =~= frames.take(i as int));
            }
            let frame = self.frames[i];
            let duration: u64 = if frame.duration_ms > 1 { frame.duration_ms as u64 } else { 1 };
            if total > u64::MAX - duration {
                return false;
            }
            total = total + duration;
        }
        assert(frames.take(n as int) =~= frames);
        true
    }


    pub fn frame_at(&self, elapsed_ms: u64) -> (frame: Option<u16>)
        requires
            self@.total_spec() <= u64::MAX,
        ensures
            frame == self@.frame_at_spec(elapsed_ms),
    {
        if self.frames.len() == 0 {
            return None;
        }
        let total = self.total_duration_ms();
        let mut cursor = if self.looped && total > 0 {
            elapsed_ms % total
        } else {
            let last = if total > 0 { total - 1 } else { 0 };
            if elapsed_ms < last { elapsed_ms } else { last }
        };
        let ghost frames = self.frames@;
        let n = self.frames.len();
        assert(frames.skip(0) =~= frames);
        for i in 0..n
            invariant
                n == frames.len(),
                frames == self.frames@,
                frame_for(frames, self@.cursor_spec(elapsed_ms)) == frame_for(frames.skip(i as int), cursor as int),
        {
            let frame = self.frames[i];
            let duration: u64 = if frame.duration_ms > 1 { frame.duration_ms as u64 } else { 1 };
            assert(frames.skip(i as int)[0] == frame);
            assert(frames.skip(i as int).drop_first() =~= frames.skip(i + 1));
            if cursor < duration {
                return Some(frame.index);
            }
            cursor = cursor - duration;
        }
        assert(frames.skip(n as int) =~= Seq::<FrameRef>::empty());
        Some(self.frames[n - 1].index)
    }

    pub fn total_duration_ms(&self) -> (total: u64)
        requires
            self@.total_spec() <= u64::MAX,
        ensures
            total == self@.total_spec(),
    {
        let ghost frames = self.frames@;
        let mut total: u64 = 0;
        let n = self.frames.len();
        for i in 0..n
            invariant
                n == frames.len(),
                frames == self.frames@,
                total_duration(frames) <= u64::MAX,
                total == total_duration(frames.take(i as int)),
        {
            proof {
                lemma_total_duration_prefix(frames, i + 1);
                assert(frames.take(i + 1).drop_last() =~= frames.take(i as int));
            }
            let frame = self.frames[i];
            let duration: u64 = if frame.duration_ms > 1 { frame.duration_ms as u64 } else { 1 };
            total = total + duration;
        }
        assert(frames.take(n as int) =~= frames);
        total
    }
}

impl Clone for AnimationSpec {
    fn clone(&self) -> (r: Self)
        ensures
            r@ == self@,
    {
        let frames = self.frames.clone();
        assert(frames@ =~= self.frames@);
        AnimationSpec { frames, looped: self.looped }
    }
}

/// Animations by name, kept in increasing order of name with no name twice, as an
/// ordered map keeps them.
#[derive(Debug, PartialEq, Eq)]
pub struct AnimationMap {
    entries: Vec<(String, AnimationSpec)>,
}

/// Names strictly increase along the entries.
pub open spec fn keys_increasing(s: Seq<(Seq<char>, AnimationView)>) -> bool {
    forall|i: int, j: int| 0 <= i < j < s.len() ==> lex_lt(#[trigger] s[i].0, #[trigger] s[j].0)
}

/// The animation stored under `key`.
pub open spec fn lookup(s: Seq<(Seq<char>, AnimationView)>, key: Seq<char>) -> Option<AnimationView>
    decreases s.len(),
{
    if s.len() == 0 {
        None
    } else if s[0].0 == key {
        Some(s[0].1)
    } else {
        lookup(s.drop_first(), key)
    }
}

/// The entries after storing `value` under `key`, replacing any earlier one.
pub open spec fn sorted_insert(
    s: Seq<(Seq<char>, AnimationView)>,
    key: Seq<char>,
    value: AnimationView,
) -> Seq<(Seq<char>, AnimationView)>
    decreases s.len(),
{
    if s.len() == 0 {
        seq![(key, value)]
    } else if lex_lt(key, s[0].0) {
        seq![(key, value)] + s
    } else if s[0].0 == key {
        seq![(key, value)] + s.drop_first()
    } else {
        seq![s[0]] + sorted_insert(s.drop_first(), key, value)
    }
}

proof fn lemma_sorted_insert_at(
    s: Seq<(Seq<char>, AnimationView)>,
    key: Seq<char>,
    value: AnimationView,
    pos: int,
)
    requires
        0 <= pos <= s.len(),
        forall|i: int| 0 <= i < pos ==> lex_lt(#[trigger] s[i].0, key),
        pos < s.len() ==> !lex_lt(s[pos].0, key),
    ensures
        sorted_insert(s, key, value) == (if pos < s.len() && s[pos].0 == key {
            s.take(pos) + seq![(key, value)] + s.skip(pos + 1)
        } else {
            s.take(pos) + seq![(key, value)] + s.skip(pos)
        }),
    decreases pos,
{
    if pos == 0 {
        if s.len() > 0 {
            lemma_lex_trichotomy(key, s[0].0);
        }
        assert(s.skip(0) =~= s);
        assert(s.skip(1) =~= s.drop_first());
        assert(s.take(0) =~= Seq::<(Seq<char>, AnimationView)>::empty());
    } else {
        let t = s.drop_first();
        assert forall|i: int| 0 <= i < pos - 1 implies lex_lt(#[trigger] t[i].0, key) by {
            assert(t[i] == s[i + 1]);
        }
        lemma_sorted_insert_at(t, key, value, pos - 1);
        assert(lex_lt(s[0].0, key));
        lemma_lex_trichotomy(key, s[0].0);
        if pos < s.len() && s[pos].0 == key {
            assert(s.take(pos) + seq![(key, value)] + s.skip(pos + 1) =~= seq![s[0]] + (t.take(pos - 1)
                + seq![(key, value)] + t.skip(pos)));
        } else {
            assert(s.take(pos) + seq![(key, value)] + s.skip(pos) =~= seq![s[0]] + (t.take(pos - 1)
                + seq![(key, value)] + t.skip(pos - 1)));
        }
    }
}

impl Clone for AnimationMap {
    fn clone(&self) -> (r: Self)
        ensures
            r@ == self@,
    {
        proof {
            use_type_invariant(self);
        }
        let mut entries: Vec<(String, AnimationSpec)> = Vec::new();
        let n = self.entries.len();
        for i in 0..n
            invariant
                n == self.entries@.len(),
                keys_increasing(self@),
                entries@.len() == i,
                forall|j: int| 0 <= j < i ==> (#[trigger] entries@[j]).0@ == self.entries@[j].0@ && entries@[j].1@ == self.entries@[j].1@,
        {
            entries.push((self.entries[i].0.clone(), self.entries[i].1.clone()));
        }
        assert(entries@.map_values(|e: (String, AnimationSpec)| (e.0@, e.1@)) =~= self@);
        AnimationMap { entries }
    }
}

impl View for AnimationMap {
    type V = Seq<(Seq<char>, AnimationView)>;

    closed spec fn view(&self) -> Seq<(Seq<char>, AnimationView)> {
        self.entries@.map_values(|e: (String, AnimationSpec)| (e.0@, e.1@))
    }
}

impl AnimationMap {
    #[verifier::type_invariant]
    closed spec fn keys_sorted(self) -> bool {
        keys_increasing(self@)
    }

    pub fn new() -> (m: Self)
        ensures
            m@ == Seq::<(Seq<char>, AnimationView)>::empty(),
    {
        let entries: Vec<(String, AnimationSpec)> = Vec::new();
        assert(entries@.map_values(|e: (String, AnimationSpec)| (e.0@, e.1@)) =~= Seq::<(Seq<char>, AnimationView)>::empty());
        AnimationMap { entries }
    }

    pub fn len(&self) -> (n: usize)
        ensures
            n == self@.len(),
    {
        self.entries.len()
    }

    /// The entries in increasing order of name.
    pub fn entries(&self) -> (es: &[(String, AnimationSpec)])
        ensures
            es@.map_values(|e: (String, AnimationSpec)| (e.0@, e.1@)) == self@,
            keys_increasing(self@),
    {
        proof {
            use_type_invariant(self);
        }
        self.entries.as_slice()
    }

    /// Stores `value` under `key`, giving back the animation it replaces.
    pub fn insert(&mut self, key: String, value: AnimationSpec) -> (previous: Option<AnimationSpec>)
        ensures
            final(self)@ == sorted_insert(old(self)@, key@, value@),
            match previous {
                Some(p) => lookup(old(self)@, key@) == Some(p@),
                None => lookup(old(self)@, key@) is None,
            },
    {
        proof {
            use_type_invariant(&*self);
        }
        let ghost s = self@;
        let n = self.entries.len();
        let mut pos: usize = 0;
        let mut found = false;
        while pos < n && !found
            invariant
                n == s.len(),
                s == self@,
                pos <= n,
                forall|i: int| 0 <= i < pos ==> lex_lt(#[trigger] s[i].0, key@),
                found ==> pos < n && !lex_lt(s[pos as int].0, key@),
            decreases (n - pos) + (if found { 0int } else { 1int }),
        {
            let order = compare_keys(self.entries[pos].0.as_str(), key.as_str());
            if order != KeyOrder::Less {
                found = true;
            } else {
                pos = pos + 1;
            }
        }
        proof {
            lemma_sorted_insert_at(s, key@, value@, pos as int);
            lemma_lookup_sorted(s, key@, pos as int);
        }
        let replace = pos < n && compare_keys(self.entries[pos].0.as_str(), key.as_str()) == KeyOrder::Equal;
        let ghost key_view = key@;
        let ghost value_view = value@;
        if replace {
            let mut entries: Vec<(String, AnimationSpec)> = Vec::new();
            std::mem::swap(&mut entries, &mut self.entries);
            let (_, old_value) = entries.remove(pos);
            entries.insert(pos, (key, value));
            proof {
                assert(entries@.map_values(|e: (String, AnimationSpec)| (e.0@, e.1@)) =~= s.take(pos as int)
                    + seq![(key_view, value_view)] + s.skip(pos + 1));
                lemma_insert_keeps_sorted(s, key_view, value_view, pos as int, true);
            }
            self.entries = entries;
            Some(old_value)
        } else {
            let mut entries: Vec<(String, AnimationSpec)> = Vec::new();
            std::mem::swap(&mut entries, &mut self.entries);
            entries.insert(pos, (key, value));
            proof {
                assert(entries@.map_values(|e: (String, AnimationSpec)| (e.0@, e.1@)) =~= s.take(pos as int)
                    + seq![(key_view, value_view)] + s.skip(pos as int));
                lemma_insert_keeps_sorted(s, key_view, value_view, pos as int, false);
            }
            self.entries = entries;
            None
        }
    }

    /// The animation stored under `key`.
    pub fn get(&self, key: &str) -> (found: Option<&AnimationSpec>)
        ensures
            match found {
                Some(spec) => lookup(self@, key@) == Some(spec@),
                None => lookup(self@, key@) is None,
            },
    {
        let ghost s = self@;
        let n = self.entries.len();
        assert(s.skip(0) =~= s);
        for i in 0..n
            invariant
                n == s.len(),
                s == self@,
                lookup(s, key@) == lookup(s.skip(i as int), key@),
        {
            assert(s.skip(i as int)[0] == s[i as int]);
            assert(s.skip(i as int).drop_first() =~= s.skip(i + 1));
            if str_eq(self.entries[i].0.as_str(), key) {
                return Some(&self.entries[i].1);
            }
        }
        assert(s.skip(n as int) =~= Seq::<(Seq<char>, AnimationView)>::empty());
        None
    }
}

/// In sorted entries, the first name not below `key` is the only place `key` can be.
proof fn lemma_lookup_sorted(s: Seq<(Seq<char>, AnimationView)>, key: Seq<char>, pos: int)
    requires
        keys_increasing(s),
        0 <= pos <= s.len(),
        forall|i: int| 0 <= i < pos ==> lex_lt(#[trigger] s[i].0, key),
        pos < s.len() ==> !lex_lt(s[pos].0, key),
    ensures
        lookup(s, key) == (if pos < s.len() && s[pos].0 == key { Some(s[pos].1) } else { None::<AnimationView> }),
    decreases s.len(),
{
    if s.len() > 0 {
        let t = s.drop_first();
        if pos == 0 {
            if s[0].0 != key {
                lemma_lex_trichotomy(key, s[0].0);
                assert(lex_lt(key, s[0].0));
                assert forall|i: int| 0 <= i < t.len() implies lex_lt(key, #[trigger] t[i].0) by {
                    assert(t[i] == s[i + 1]);
                    lemma_lex_transitive(key, s[0].0, s[i + 1].0);
                }
                lemma_lookup_above(t, key);
            }
        } else {
            assert(lex_lt(s[0].0, key));
            lemma_lex_trichotomy(s[0].0, key);
            assert forall|i: int, j: int| 0 <= i < j < t.len() implies lex_lt(#[trigger] t[i].0, #[trigger] t[j].0) by {
                assert(t[i] == s[i + 1] && t[j] == s[j + 1]);
            }
            assert forall|i: int| 0 <= i < pos - 1 implies lex_lt(#[trigger] t[i].0, key) by {
                assert(t[i] == s[i + 1]);
            }
            lemma_lookup_sorted(t, key, pos - 1);
        }
    }
}

/// No entry is found under a key below every name.
proof fn lemma_lookup_above(s: Seq<(Seq<char>, AnimationView)>, key: Seq<char>)
    requires
        forall|i: int| 0 <= i < s.len() ==> lex_lt(key, #[trigger] s[i].0),
    ensures
        lookup(s, key) is None,
    decreases s.len(),
{
    if s.len() > 0 {
        lemma_lex_trichotomy(key, s[0].0);
        let t = s.drop_first();
        assert forall|i: int| 0 <= i < t.len() implies lex_lt(key, #[trigger] t[i].0) by {
            assert(t[i] == s[i + 1]);
        }
        lemma_lookup_above(t, key);
    }
}

proof fn lemma_insert_keeps_sorted(
    s: Seq<(Seq<char>, AnimationView)>,
    key: Seq<char>,
    value: AnimationView,
    pos: int,
    replace: bool,
)
    requires
        keys_increasing(s),
        0 <= pos <= s.len(),
        forall|i: int| 0 <= i < pos ==> lex_lt(#[trigger] s[i].0, key),
        pos < s.len() ==> !lex_lt(s[pos].0, key),
        replace ==> pos < s.len() && s[pos].0 == key,
        !replace ==> !(pos < s.len() && s[pos].0 == key),
    ensures
        keys_increasing(
            if replace {
                s.take(pos) + seq![(key, value)] + s.skip(pos + 1)
            } else {
                s.take(pos) + seq![(key, value)] + s.skip(pos)
            },
        ),
{
    let rest_start = if replace { pos + 1 } else { pos };
    let r = s.take(pos) + seq![(key, value)] + s.skip(rest_start);
    assert forall|i: int| rest_start <= i < s.len() implies lex_lt(key, #[trigger] s[i].0) by {
        lemma_lex_trichotomy(key, s[pos].0);
        if replace {
            assert(lex_lt(s[pos].0, s[i].0));
        } else if i > pos {
            lemma_lex_transitive(key, s[pos].0, s[i].0);
        }
    }
    assert forall|i: int, j: int| 0 <= i < j < r.len() implies lex_lt(#[trigger] r[i].0, #[trigger] r[j].0) by {
        if j < pos {
        } else if j == pos {
            assert(r[j].0 == key);
        } else {
            assert(r[j] == s[j - pos - 1 + rest_start]);
            if i < pos {
                assert(r[i] == s[i]);
                if replace {
                } else {
                }
                lemma_lex_transitive(s[i].0, key, s[j - pos - 1 + rest_start].0);
            } else if i == pos {
            } else {
                assert(r[i] == s[i - pos - 1 + rest_start]);
            }
        }
    }
    assert(r == (if replace {
        s.take(pos) + seq![(key, value)] + s.skip(pos + 1)
    } else {
        s.take(pos) + seq![(key, value)] + s.skip(pos)
    }));
}


/// What a hit zone is: its name and area.
pub struct HitZoneView {
    pub name: Seq<char>,
    pub rect: Rect,
}

impl View for HitZone {
    type V = HitZoneView;

    open spec fn view(&self) -> HitZoneView {
        HitZoneView { name: self.name@, rect: self.rect }
    }
}

/// The area of the first zone with the given name.
pub open spec fn first_zone_rect(zones: Seq<HitZoneView>, name: Seq<char>) -> Option<Rect>
    decreases zones.len(),
{
    if zones.len() == 0 {
        None
    } else if zones[0].name == name {
        Some(zones[0].rect)
    } else {
        first_zone_rect(zones.drop_first(), name)
    }
}

/// The animations that every manifest must hold, in the order they are checked.
pub open spec fn required_animation(i: int) -> AnimationId {
    if i == 0 {
        AnimationId::Idle
    } else if i == 1 {
        AnimationId::Blink
    } else if i == 2 {
        AnimationId::Walk
    } else if i == 3 {
        AnimationId::WalkDown
    } else if i == 4 {
        AnimationId::WalkUp
    } else if i == 5 {
        AnimationId::WalkLeft
    } else if i == 6 {
        AnimationId::WalkRight
    } else if i == 7 {
        AnimationId::Sit
    } else if i == 8 {
        AnimationId::Sleep
    } else if i == 9 {
        AnimationId::Happy
    } else if i == 10 {
        AnimationId::Poke
    } else {
        AnimationId::Dance
    }
}

pub open spec fn required_animation_count() -> nat {
    12
}

/// The hit zones that every manifest must hold, in the order they are checked.
pub open spec fn required_zone(i: int) -> Seq<char> {
    if i == 0 {
        "head"@
    } else if i == 1 {
        "back"@
    } else {
        "body"@
    }
}

fn required_animation_at(i: usize) -> (id: AnimationId)
    requires
        i < 12,
    ensures
        id == required_animation(i as int),
{
    if i == 0 {
        AnimationId::Idle
    } else if i == 1 {
        AnimationId::Blink
    } else if i == 2 {
        AnimationId::Walk
    } else if i == 3 {
        AnimationId::WalkDown
    } else if i == 4 {
        AnimationId::WalkUp
    } else if i == 5 {
        AnimationId::WalkLeft
    } else if i == 6 {
        AnimationId::WalkRight
    } else if i == 7 {
        AnimationId::Sit
    } else if i == 8 {
        AnimationId::Sleep
    } else if i == 9 {
        AnimationId::Happy
    } else if i == 10 {
        AnimationId::Poke
    } else {
        AnimationId::Dance
    }
}

fn required_zone_at(i: usize) -> (name: &'static str)
    requires
        i < 3,
    ensures
        name@ == required_zone(i as int),
{
    if i == 0 {
        "head"
    } else if i == 1 {
        "back"
    } else {
        "body"
    }
}

/// The layout of the sprite sheet and what each animation, zone and heart uses of it.
#[derive(Debug, PartialEq)]
pub struct AssetManifest {
    pub frame_size: u32,
    pub sheet_columns: u32,
    pub animations: AnimationMap,
    pub hit_zones: Vec<HitZone>,
    pub heart_spawn_points: Vec<Point>,
    pub heart_frames: Vec<u16>,
}

/// What a manifest is.
pub struct ManifestView {
    pub frame_size: u32,
    pub sheet_columns: u32,
    pub animations: Seq<(Seq<char>, AnimationView)>,
    pub hit_zones: Seq<HitZoneView>,
    pub heart_spawn_points: Seq<Point>,
    pub heart_frames: Seq<u16>,
}

impl View for AssetManifest {
    type V = ManifestView;

    open spec fn view(&self) -> ManifestView {
        ManifestView {
            frame_size: self.frame_size,
            sheet_columns: self.sheet_columns,
            animations: self.animations@,
            hit_zones: self.hit_zones@.map_values(|z: HitZone| z@),
            heart_spawn_points: self.heart_spawn_points@,
            heart_frames: self.heart_frames@,
        }
    }
}

impl Clone for AssetManifest {
    fn clone(&self) -> (r: Self)
        ensures
            r@ == self@,
    {
        let mut hit_zones: Vec<HitZone> = Vec::new();
        let n = self.hit_zones.len();
        for i in 0..n
            invariant
                n == self.hit_zones@.len(),
                hit_zones@.len() == i,
                forall|j: int| 0 <= j < i ==> (#[trigger] hit_zones@[j])@ == self.hit_zones@[j]@,
        {
            hit_zones.push(self.hit_zones[i].clone());
        }
        assert(hit_zones@.map_values(|z: HitZone| z@) =~= self.hit_zones@.map_values(|z: HitZone| z@));
        let heart_spawn_points = self.heart_spawn_points.clone();
        assert(heart_spawn_points@ =~= self.heart_spawn_points@);
        let heart_frames = self.heart_frames.clone();
        assert(heart_frames@ =~= self.heart_frames@);
        AssetManifest {
            frame_size: self.frame_size,
            sheet_columns: self.sheet_columns,
            animations: self.animations.clone(),
            hit_zones,
            heart_spawn_points,
            heart_frames,
        }
    }
}

impl ManifestView {
    /// Every animation lasts at most `u64::MAX` milliseconds.
    pub open spec fn durations_fit(self) -> bool {
        forall|i: int| 0 <= i < self.animations.len() ==> (#[trigger] self.animations[i]).1.total_spec() <= u64::MAX
    }

    pub open spec fn animation_of(self, id: AnimationId) -> Option<AnimationView> {
        lookup(self.animations, id.key_spec())
    }

    /// Some zone named "head" or "back" contains the point.
    pub open spec fn stroke_zone_at(self, x: int, y: int) -> bool {
        exists|i: int|
            0 <= i < self.hit_zones.len() && (self.hit_zones[i].name == "head"@ || self.hit_zones[i].name
                == "back"@) && (#[trigger] self.hit_zones[i]).rect.contains_spec(x, y)
    }

    /// Some zone named "body" contains the point.
    pub open spec fn body_zone_at(self, x: int, y: int) -> bool {
        exists|i: int|
            0 <= i < self.hit_zones.len() && self.hit_zones[i].name == "body"@
                && (#[trigger] self.hit_zones[i]).rect.contains_spec(x, y)
    }

    /// The first required animation, from the `i`-th on, that is missing or has no frames.
    pub open spec fn animation_problem(self, i: nat) -> Option<Seq<char>>
        decreases required_animation_count() - i,
    {
        if i >= required_animation_count() {
            None
        } else {
            let key = required_animation(i as int).key_spec();
            match lookup(self.animations, key) {
                None => Some("missing required animation "@ + key),
                Some(a) => if a.frames.len() == 0 {
                    Some("animation "@ + key + " has no frames"@)
                } else {
                    self.animation_problem(i + 1)
                },
            }
        }
    }

    /// The first required hit zone, from the `i`-th on, that is missing.
    pub open spec fn zone_problem(self, i: nat) -> Option<Seq<char>>
        decreases 3 - i,
    {
        if i >= 3 {
            None
        } else if first_zone_rect(self.hit_zones, required_zone(i as int)) is None {
            Some("missing required hit zone "@ + required_zone(i as int))
        } else {
            self.zone_problem(i + 1)
        }
    }

    /// The first thing that makes the manifest unusable, as `validate` reports it.
    pub open spec fn problem(self) -> Option<Seq<char>> {
        if self.frame_size == 0 {
            Some("frame_size must be greater than zero"@)
        } else if self.sheet_columns == 0 {
            Some("sheet_columns must be greater than zero"@)
        } else if self.animation_problem(0) is Some {
            self.animation_problem(0)
        } else if self.zone_problem(0) is Some {
            self.zone_problem(0)
        } else if self.heart_spawn_points.len() == 0 {
            Some("at least one heart spawn point is required"@)
        } else if self.heart_frames.len() == 0 {
            Some("at least one heart frame is required"@)
        } else {
            None
        }
    }
}

impl AssetManifest {
    /// Whether every animation lasts at most `u64::MAX` milliseconds, so that its frames
    /// can be timed.
    pub fn durations_fit(&self) -> (r: bool)
        ensures
            r == self@.durations_fit(),
    {
        let es = self.animations.entries();
        let ghost v = self@.animations;
        for i in 0..es.len()
            invariant
                es@.map_values(|e: (String, AnimationSpec)| (e.0@, e.1@)) == v,
                v == self@.animations,
                forall|j: int| 0 <= j < i ==> (#[trigger] v[j]).1.total_spec() <= u64::MAX,
        {
            assert(v[i as int].1 == es@[i as int].1@);
            if !es[i].1.total_fits() {
                return false;
            }
        }
        true
    }

    /// The animation of a pose; the manifest must hold it.
    pub fn animation(&self, id: AnimationId) -> (spec: &AnimationSpec)
        requires
            self@.animation_of(id) is Some,
        ensures
            self@.animation_of(id) == Some(spec@),
    {
        match self.animations.get(id.as_key()) {
            Some(spec) => spec,
            None => vstd::pervasive::unreached(),
        }
    }

    pub fn hit_zone(&self, name: &str) -> (rect: Option<Rect>)
        ensures
            rect == first_zone_rect(self@.hit_zones, name@),
    {
        let ghost zones = self@.hit_zones;
        let n = self.hit_zones.len();
        assert(zones.skip(0) =~= zones);
        for i in 0..n
            invariant
                n == zones.len(),
                zones == self@.hit_zones,
                first_zone_rect(zones, name@) == first_zone_rect(zones.skip(i as int), name@),
        {
            assert(zones.skip(i as int)[0] == zones[i as int]);
            assert(zones.skip(i as int).drop_first() =~= zones.skip(i + 1));
            if str_eq(self.hit_zones[i].name.as_str(), name) {
                return Some(self.hit_zones[i].rect);
            }
        }
        assert(zones.skip(n as int) =~= Seq::<HitZoneView>::empty());
        None
    }

    pub fn is_stroke_zone(&self, x: i32, y: i32) -> (r: bool)
        ensures
            r == self@.stroke_zone_at(x as int, y as int),
    {
        let ghost zones = self@.hit_zones;
        let n = self.hit_zones.len();
        for i in 0..n
            invariant
                n == zones.len(),
                zones == self@.hit_zones,
                forall|j: int|
                    0 <= j < i ==> !((zones[j].name == "head"@ || zones[j].name == "back"@) && (
                    #[trigger] zones[j]).rect.contains_spec(x as int, y as int)),
        {
            let zone = &self.hit_zones[i];
            assert(zones[i as int] == zone@);
            if (str_eq(zone.name.as_str(), "head") || str_eq(zone.name.as_str(), "back")) && zone.rect.contains(x, y) {
                return true;
            }
        }
        false
    }

    pub fn is_body_zone(&self, x: i32, y: i32) -> (r: bool)
        ensures
            r == self@.body_zone_at(x as int, y as int),
    {
        let ghost zones = self@.hit_zones;
        let n = self.hit_zones.len();
        for i in 0..n
            invariant
                n == zones.len(),
                zones == self@.hit_zones,
                forall|j: int|
                    0 <= j < i ==> !(zones[j].name == "body"@ && (#[trigger] zones[j]).rect.contains_spec(
                        x as int,
                        y as int,
                    )),
        {
            let zone = &self.hit_zones[i];
            assert(zones[i as int] == zone@);
            if str_eq(zone.name.as_str(), "body") && zone.rect.contains(x, y) {
                return true;
            }
        }
        false
    }

    /// Checks that the manifest can drive the pet; on failure, says what is wrong first.
    pub fn validate(&self) -> (r: Result<(), AssetError>)
        ensures
            match r {
                Ok(()) => self@.problem() is None,
                Err(e) => e@ == AssetProblem::Manifest(self@.problem().unwrap()) && self@.problem() is Some,
            },
    {
        if self.frame_size == 0 {
            return Err(AssetError::Manifest(String::from_str("frame_size must be greater than zero")));
        }
        if self.sheet_columns == 0 {
            return Err(AssetError::Manifest(String::from_str("sheet_columns must be greater than zero")));
        }
        let mut i: usize = 0;
        while i < 12
            invariant
                i <= 12,
                self.frame_size > 0,
                self.sheet_columns > 0,
                self@.animation_problem(0) == self@.animation_problem(i as nat),
            decreases 12 - i,
        {
            let required = required_animation_at(i);
            match self.animations.get(required.as_key()) {
                None => {
                    let mut message = String::from_str("missing required animation ");
                    message.append(required.as_key());
                    return Err(AssetError::Manifest(message));
                },
                Some(animation) => {
                    if animation.frames.len() == 0 {
                        let mut message = String::from_str("animation ");
                        message.append(required.as_key());
                        message.append(" has no frames");
                        return Err(AssetError::Manifest(message));
                    }
                },
            }
            i = i + 1;
        }
        let mut z: usize = 0;
        while z < 3
            invariant
                z <= 3,
                self.frame_size > 0,
                self.sheet_columns > 0,
                self@.animation_problem(0) is None,
                self@.zone_problem(0) == self@.zone_problem(z as nat),
            decreases 3 - z,
        {
            let name = required_zone_at(z);
            if self.hit_zone(name).is_none() {
                let mut message = String::from_str("missing required hit zone ");
                message.append(name);
                return Err(AssetError::Manifest(message));
            }
            z = z + 1;
        }
        if self.heart_spawn_points.len() == 0 {
            return Err(AssetError::Manifest(String::from_str("at least one heart spawn point is required")));
        }
        if self.heart_frames.len() == 0 {
            return Err(AssetError::Manifest(String::from_str("at least one heart frame is required")));
        }
        Ok(())
    }
}

/// What went wrong while loading assets, by kind, with the message.
pub enum AssetProblem {
    Manifest(Seq<char>),
    Png(Seq<char>),
    InvalidSheet(Seq<char>),
}

impl AssetError {
    /// The error as it is shown: what failed, then the detail.
    pub fn message(&self) -> (m: String)
        ensures
            m@ == match self@ {
                AssetProblem::Manifest(detail) => "asset manifest error: "@ + detail,
                AssetProblem::Png(detail) => "png decode error: "@ + detail,
                AssetProblem::InvalidSheet(detail) => "invalid spritesheet: "@ + detail,
            },
    {
        let (mut m, detail) = match self {
            AssetError::Manifest(detail) => (String::from_str("asset manifest error: "), detail),
            AssetError::Png(detail) => (String::from_str("png decode error: "), detail),
            AssetError::InvalidSheet(detail) => (String::from_str("invalid spritesheet: "), detail),
        };
        m.append(detail.as_str());
        m
    }
}

impl View for AssetError {
    type V = AssetProblem;

    open spec fn view(&self) -> AssetProblem {
        match self {
            AssetError::Manifest(m) => AssetProblem::Manifest(m@),
            AssetError::Png(m) => AssetProblem::Png(m@),
            AssetError::InvalidSheet(m) => AssetProblem::InvalidSheet(m@),
        }
    }
}


/// A pixel, straight (not premultiplied) alpha.
#[derive(Clone, Copy, Debug, PartialEq, Eq, Structural)]
pub struct Rgba {
    pub r: u8,
    pub g: u8,
    pub b: u8,
    pub a: u8,
}

pub open spec fn transparent() -> Rgba {
    Rgba { r: 0, g: 0, b: 0, a: 0 }
}

impl Default for Rgba {
    fn default() -> (px: Self)
        ensures
            px == transparent(),
    {
        Rgba { r: 0, g: 0, b: 0, a: 0 }
    }
}

/// The pixels that a buffer of 8-bit RGBA samples holds, four bytes each.
pub open spec fn rgba_pixels(data: Seq<u8>, count: nat) -> Seq<Rgba> {
    Seq::new(
        count,
        |i: int| Rgba { r: data[4 * i], g: data[4 * i + 1], b: data[4 * i + 2], a: data[4 * i + 3] },
    )
}

/// The first frame that points past the end of the sheet.
pub open spec fn first_missing_frame(frames: Seq<FrameRef>, count: int) -> Option<u16>
    decreases frames.len(),
{
    if frames.len() == 0 {
        None
    } else if frames[0].index >= count {
        Some(frames[0].index)
    } else {
        first_missing_frame(frames.drop_first(), count)
    }
}

/// In name order, the first animation with a frame past the end of the sheet, with that frame.
pub open spec fn first_missing_animation(anims: Seq<(Seq<char>, AnimationView)>, count: int) -> Option<
    (Seq<char>, u16),
>
    decreases anims.len(),
{
    if anims.len() == 0 {
        None
    } else {
        match first_missing_frame(anims[0].1.frames, count) {
            Some(f) => Some((anims[0].0, f)),
            None => first_missing_animation(anims.drop_first(), count),
        }
    }
}

/// The first heart frame past the end of the sheet.
pub open spec fn first_missing_heart(frames: Seq<u16>, count: int) -> Option<u16>
    decreases frames.len(),
{
    if frames.len() == 0 {
        None
    } else if frames[0] >= count {
        Some(frames[0])
    } else {
        first_missing_heart(frames.drop_first(), count)
    }
}

/// Why a `width` × `height` sheet does not fit the manifest, if it does not.
pub open spec fn dimension_problem(width: u32, height: u32, m: ManifestView) -> Option<Seq<char>>
    recommends
        m.frame_size > 0,
{
    let fs = m.frame_size;
    if width % fs != 0 || height % fs != 0 {
        Some(
            "sheet dimensions "@ + decimal(width as nat) + "x"@ + decimal(height as nat)
                + " are not multiples of frame size "@ + decimal(fs as nat),
        )
    } else {
        let count = (height / fs) * m.sheet_columns;
        match first_missing_animation(m.animations, count) {
            Some((name, f)) => Some("animation "@ + name + " references missing frame "@ + decimal(f as nat)),
            None => match first_missing_heart(m.heart_frames, count) {
                Some(f) => Some("heart frame "@ + decimal(f as nat) + " does not exist"@),
                None => None,
            },
        }
    }
}

/// Why a decoded frame cannot become a sprite sheet, if it cannot.
pub open spec fn decode_problem(frame: PngFrame, buffer_len: nat, m: ManifestView) -> Option<AssetProblem> {
    if !(frame.rgba && frame.eight_bit) {
        Some(AssetProblem::InvalidSheet("spritesheet must be 8-bit RGBA PNG"@))
    } else if frame.line_size * frame.height > buffer_len {
        Some(AssetProblem::Png("decoded frame is larger than its buffer"@))
    } else {
        match dimension_problem(frame.width, frame.height, m) {
            Some(message) => Some(AssetProblem::InvalidSheet(message)),
            None => None,
        }
    }
}

/// The sheet that a decoded frame and its buffer make with a manifest, or what is wrong.
pub open spec fn decoded_sheet(frame: PngFrame, data: Seq<u8>, m: ManifestView) -> Result<SheetView, AssetProblem> {
    match decode_problem(frame, data.len(), m) {
        Some(problem) => Err(problem),
        None => Ok(
            SheetView {
                width: frame.width,
                height: frame.height,
                pixels: rgba_pixels(data, (frame.width * frame.height) as nat),
                manifest: m,
            },
        ),
    }
}

/// What a sprite sheet is: its size, its pixels row by row, and its manifest.
pub struct SheetView {
    pub width: u32,
    pub height: u32,
    pub pixels: Seq<Rgba>,
    pub manifest: ManifestView,
}

impl SheetView {
    /// The pixel at a point; transparent outside the sheet.
    pub open spec fn pixel_at(self, x: int, y: int) -> Rgba {
        if 0 <= x < self.width && 0 <= y < self.height {
            self.pixels[y * self.width + x]
        } else {
            transparent()
        }
    }

    /// Top-left corner of a frame: frames are laid out row by row, `sheet_columns` a row.
    pub open spec fn frame_origin(self, frame: u16) -> (int, int) {
        let columns = self.manifest.sheet_columns as int;
        let size = self.manifest.frame_size as int;
        ((frame as int % columns) * size, (frame as int / columns) * size)
    }

    pub open spec fn frame_pixel_at(self, frame: u16, x: int, y: int) -> Rgba {
        self.pixel_at(self.frame_origin(frame).0 + x, self.frame_origin(frame).1 + y)
    }
}

/// The decoded sprite sheet with its manifest.
#[derive(Debug)]
pub struct SpriteSheet {
    width: u32,
    height: u32,
    pixels: Vec<Rgba>,
    manifest: AssetManifest,
}

impl View for SpriteSheet {
    type V = SheetView;

    closed spec fn view(&self) -> SheetView {
        SheetView { width: self.width, height: self.height, pixels: self.pixels@, manifest: self.manifest@ }
    }
}

proof fn lemma_row_index(x: int, y: int, width: int, height: int)
    requires
        0 <= x < width,
        0 <= y < height,
    ensures
        0 <= y * width + x < width * height,
{
    assert(y * width + x < width * height) by (nonlinear_arith)
        requires 0 <= x < width, 0 <= y < height;
    assert(0 <= y * width) by (nonlinear_arith)
        requires 0 <= y, 0 <= width;
}

impl SpriteSheet {
    #[verifier::type_invariant]
    closed spec fn pixels_fill_sheet(self) -> bool {
        self.pixels@.len() == self.width * self.height
    }

    /// The sheet's pixels fill it exactly.
    pub fn pixel_count(&self) -> (n: usize)
        ensures
            n == self@.pixels.len(),
            self@.pixels.len() == self@.width * self@.height,
    {
        proof {
            use_type_invariant(self);
        }
        self.pixels.len()
    }

    pub fn manifest(&self) -> (m: &AssetManifest)
        ensures
            m@ == self@.manifest,
    {
        &self.manifest
    }

    pub fn width(&self) -> (w: u32)
        ensures
            w == self@.width,
    {
        self.width
    }

    pub fn height(&self) -> (h: u32)
        ensures
            h == self@.height,
    {
        self.height
    }

    pub fn frame_size(&self) -> (size: u32)
        ensures
            size == self@.manifest.frame_size,
            self@.pixels.len() == self@.width * self@.height,
    {
        proof {
            use_type_invariant(self);
        }
        self.manifest.frame_size
    }

    /// The pixel at `(x, y)` of a frame.
    pub fn frame_pixel(&self, frame_index: u16, x: u32, y: u32) -> (px: Rgba)
        requires
            self@.manifest.sheet_columns > 0,
            self@.frame_origin(frame_index).0 + x <= u32::MAX,
            self@.frame_origin(frame_index).1 + y <= u32::MAX,
        ensures
            px == self@.frame_pixel_at(frame_index, x as int, y as int),
    {
        let frame_size = self.manifest.frame_size;
        let columns = self.manifest.sheet_columns;
        let frame_x = (frame_index as u32) % columns;
        let frame_y = (frame_index as u32) / columns;
        assert(frame_x * frame_size <= u32::MAX && frame_y * frame_size <= u32::MAX);
        let sx = frame_x * frame_size + x;
        let sy = frame_y * frame_size + y;
        self.pixel(sx, sy)
    }

    /// The pixel at `(x, y)`; transparent outside the sheet.
    pub fn pixel(&self, x: u32, y: u32) -> (px: Rgba)
        ensures
            px == self@.pixel_at(x as int, y as int),
    {
        proof {
            use_type_invariant(self);
        }
        if x >= self.width || y >= self.height {
            return Rgba { r: 0, g: 0, b: 0, a: 0 };
        }
        proof {
            lemma_row_index(x as int, y as int, self.width as int, self.height as int);
            assert((y as int) * (self.width as int) <= (y as int) * (self.width as int) + (x as int));
        }
        let n = self.pixels.len();
        assert(n == self.width * self.height);
        self.pixels[(y as usize) * (self.width as usize) + (x as usize)]
    }
}

impl Clone for SpriteSheet {
    fn clone(&self) -> (sheet: Self)
        ensures
            sheet@ == self@,
    {
        proof {
            use_type_invariant(self);
        }
        let pixels = self.pixels.clone();
        assert(pixels@ =~= self.pixels@);
        SpriteSheet { width: self.width, height: self.height, pixels, manifest: self.manifest.clone() }
    }
}


impl SpriteSheet {
    /// Checks that the sheet splits into whole frames and holds every frame the manifest uses.
    #[verifier::loop_isolation(false)]
    fn validate_dimensions(&self) -> (r: Result<(), AssetError>)
        requires
            self@.manifest.frame_size > 0,
        ensures
            match r {
                Ok(()) => dimension_problem(self@.width, self@.height, self@.manifest) is None,
                Err(e) => dimension_problem(self@.width, self@.height, self@.manifest) matches Some(message)
                    && e@ == AssetProblem::InvalidSheet(message),
            },
    {
        let frame_size = self.manifest.frame_size;
        if self.width % frame_size != 0 || self.height % frame_size != 0 {
            let mut message = String::from_str("sheet dimensions ");
            push_decimal(&mut message, self.width as u64);
            message.append("x");
            push_decimal(&mut message, self.height as u64);
            message.append(" are not multiples of frame size ");
            push_decimal(&mut message, frame_size as u64);
            return Err(AssetError::InvalidSheet(message));
        }
        let rows = self.height / frame_size;
        assert((rows as u64) * (self.manifest.sheet_columns as u64) <= u64::MAX) by (nonlinear_arith)
            requires rows <= u32::MAX, self.manifest.sheet_columns <= u32::MAX;
        let frame_count: u64 = (rows as u64) * (self.manifest.sheet_columns as u64);
        let ghost count = (self@.height / self@.manifest.frame_size) * self@.manifest.sheet_columns;
        assert(frame_count == count);
        let entries = self.manifest.animations.entries();
        let ghost anims = self@.manifest.animations;
        assert(anims.skip(0) =~= anims);
        let n = entries.len();
        for i in 0..n
            invariant
                n == anims.len(),
                entries@.map_values(|e: (String, AnimationSpec)| (e.0@, e.1@)) == anims,
                anims == self@.manifest.animations,
                frame_count == count,
                self@.width % self@.manifest.frame_size == 0,
                self@.height % self@.manifest.frame_size == 0,
                self@.manifest.frame_size > 0,
                first_missing_animation(anims, count) == first_missing_animation(anims.skip(i as int), count),
        {
            let name = &entries[i].0;
            let frames = &entries[i].1.frames;
            let ghost fr = frames@;
            assert(anims[i as int] == (name@, entries[i as int].1@));
            assert(anims.skip(i as int)[0] == anims[i as int]);
            assert(anims.skip(i as int).drop_first() =~= anims.skip(i + 1));
            assert(fr.skip(0) =~= fr);
            let m = frames.len();
            for j in 0..m
                invariant
                    m == fr.len(),
                    fr == frames@,
                    first_missing_frame(fr, count) == first_missing_frame(fr.skip(j as int), count),
            {
                assert(fr.skip(j as int)[0] == fr[j as int]);
                assert(fr.skip(j as int).drop_first() =~= fr.skip(j + 1));
                let index = frames[j].index;
                if (index as u64) >= frame_count {
                    let mut message = String::from_str("animation ");
                    message.append(name.as_str());
                    message.append(" references missing frame ");
                    push_decimal(&mut message, index as u64);
                    return Err(AssetError::InvalidSheet(message));
                }
            }
            assert(fr.skip(m as int) =~= Seq::<FrameRef>::empty());
        }
        assert(anims.skip(n as int) =~= Seq::<(Seq<char>, AnimationView)>::empty());
        let ghost hearts = self@.manifest.heart_frames;
        assert(hearts.skip(0) =~= hearts);
        let h = self.manifest.heart_frames.len();
        for k in 0..h
            invariant
                h == hearts.len(),
                hearts == self@.manifest.heart_frames,
                frame_count == count,
                first_missing_heart(hearts, count) == first_missing_heart(hearts.skip(k as int), count),
        {
            assert(hearts.skip(k as int)[0] == hearts[k as int]);
            assert(hearts.skip(k as int).drop_first() =~= hearts.skip(k + 1));
            let frame = self.manifest.heart_frames[k];
            if (frame as u64) >= frame_count {
                let mut message = String::from_str("heart frame ");
                push_decimal(&mut message, frame as u64);
                message.append(" does not exist");
                return Err(AssetError::InvalidSheet(message));
            }
        }
        assert(hearts.skip(h as int) =~= Seq::<u16>::empty());
        Ok(())
    }

    /// Builds the sheet from a decoded frame and the buffer the decoder filled.
    pub fn from_decoded(frame: PngFrame, buffer: Vec<u8>, manifest: AssetManifest) -> (r: Result<Self, AssetError>)
        requires
            manifest@.frame_size > 0,
            frame.rgba && frame.eight_bit ==> frame.line_size == frame.width * 4,
        ensures
            match r {
                Ok(sheet) => decode_problem(frame, buffer@.len(), manifest@) is None && sheet@ == (SheetView {
                    width: frame.width,
                    height: frame.height,
                    pixels: rgba_pixels(buffer@, (frame.width * frame.height) as nat),
                    manifest: manifest@,
                }),
                Err(e) => decode_problem(frame, buffer@.len(), manifest@) == Some(e@),
            },
    {
        if !frame.rgba || !frame.eight_bit {
            return Err(AssetError::InvalidSheet(String::from_str("spritesheet must be 8-bit RGBA PNG")));
        }
        assert(buffer@.len() == buffer.len());
        let size = match frame.line_size.checked_mul(frame.height as usize) {
            Some(size) => size,
            None => {
                return Err(AssetError::Png(String::from_str("decoded frame is larger than its buffer")));
            },
        };
        if size > buffer.len() {
            return Err(AssetError::Png(String::from_str("decoded frame is larger than its buffer")));
        }
        let ghost w = frame.width as int;
        let ghost h = frame.height as int;
        assert(size == 4 * (w * h)) by (nonlinear_arith)
            requires size == frame.line_size * frame.height, frame.line_size == w * 4, h == frame.height;
        let count = size / 4;
        assert(count == w * h);
        let mut pixels: Vec<Rgba> = Vec::new();
        for i in 0..count
            invariant
                count == w * h,
                4 * count <= buffer@.len(),
                buffer@.len() == buffer.len(),
                pixels@ == rgba_pixels(buffer@, i as nat),
        {
            let base = 4 * i;
            pixels.push(Rgba { r: buffer[base], g: buffer[base + 1], b: buffer[base + 2], a: buffer[base + 3] });
            assert(pixels@ =~= rgba_pixels(buffer@, (i + 1) as nat));
        }
        let sheet = SpriteSheet { width: frame.width, height: frame.height, pixels, manifest };
        match sheet.validate_dimensions() {
            Ok(()) => Ok(sheet),
            Err(e) => Err(e),
        }
    }

    /// Decodes a PNG sprite sheet and checks it against the manifest: the header must read,
    /// the decoder must know the frame's size, and the first frame must decode into a
    /// zeroed buffer of that size; then the outcome is that of `from_decoded` on what it
    /// produced.
    pub fn from_png_bytes(bytes: &[u8], manifest: AssetManifest) -> (r: Result<Self, AssetError>)
        requires
            manifest@.frame_size > 0,
        ensures
            png_sheet_outcome(bytes@, manifest@, sheet_result(r)),
    {
        let reader = match png_read_info(bytes) {
            Ok(reader) => reader,
            Err(err) => {
                return Err(AssetError::Png(png_error_text(&err)));
            },
        };
        let size = match png_output_buffer_size(&reader) {
            Some(size) => size,
            None => {
                return Err(AssetError::Png(String::from_str("unknown output buffer size")));
            },
        };
        let mut buffer: Vec<u8> = vec![0; size];
        assert(buffer@ =~= Seq::new(size as nat, |i: int| 0u8));
        let frame = match png_next_frame(reader, &mut buffer) {
            Ok(frame) => frame,
            Err(err) => {
                return Err(AssetError::Png(png_error_text(&err)));
            },
        };
        Self::from_decoded(frame, buffer, manifest)
    }
}


/// What a sheet-making outcome is, by its views.
pub open spec fn sheet_result(r: Result<SpriteSheet, AssetError>) -> Result<SheetView, AssetProblem> {
    match r {
        Ok(sheet) => Ok(sheet@),
        Err(e) => Err(e@),
    }
}

/// Whether `r` is what decoding `bytes` as a sprite sheet for `m` gives: a PNG error when
/// the header does not read, when the decoder cannot tell the frame's size, or when the
/// first frame does not decode into a zeroed buffer of that size; otherwise the decoded
/// frame, whose rows fit the buffer, checked by `decoded_sheet`.
pub open spec fn png_sheet_outcome(bytes: Seq<u8>, m: ManifestView, r: Result<SheetView, AssetProblem>) -> bool {
    if !png_header_reads(bytes) {
        r matches Err(e) && e is Png
    } else {
        match png_buffer_size(bytes) {
            None => r == Err::<SheetView, AssetProblem>(AssetProblem::Png("unknown output buffer size"@)),
            Some(n) => match png_decoded(bytes, Seq::new(n as nat, |i: int| 0u8)) {
                None => r matches Err(e) && e is Png,
                Some((frame, data)) => {
                    &&& frame.line_size * frame.height <= data.len()
                    &&& (frame.rgba && frame.eight_bit ==> frame.line_size == frame.width * 4)
                    &&& r == decoded_sheet(frame, data, m)
                },
            },
        }
    }
}

/// Loads the pet's sprites: the manifest must validate, then the PNG must decode into a
/// sheet that holds its frames.
pub fn load_sprites(manifest: AssetManifest, png: &[u8]) -> (r: Result<SpriteSheet, AssetError>)
    ensures
        manifest@.problem() is Some ==> (r matches Err(e) && e@ == AssetProblem::Manifest(manifest@.problem().unwrap())),
        manifest@.problem() is None ==> png_sheet_outcome(png@, manifest@, sheet_result(r)),
{
    match manifest.validate() {
        Err(e) => Err(e),
        Ok(()) => SpriteSheet::from_png_bytes(png, manifest),
    }
}

/// The total of a run of frames is its first frame's duration plus the rest's total.
pub proof fn lemma_total_duration_front(frames: Seq<FrameRef>)
    requires
        frames.len() > 0,
    ensures
        total_duration(frames) == frame_duration(frames[0]) + total_duration(frames.drop_first()),
    decreases frames.len(),
{
    if frames.len() > 1 {
        lemma_total_duration_front(frames.drop_last());
        assert(frames.drop_last().drop_first() =~= frames.drop_first().drop_last());
    } else {
        assert(frames.drop_first() =~= Seq::<FrameRef>::empty());
        assert(frames.drop_last() =~= Seq::<FrameRef>::empty());
    }
}

/// The last millisecond of a run of frames shows its last frame.
proof fn lemma_frame_for_end(frames: Seq<FrameRef>)
    requires
        frames.len() > 0,
    ensures
        frame_for(frames, total_duration(frames) - 1) == Some(frames.last().index),
    decreases frames.len(),
{
    lemma_total_duration_front(frames);
    let rest = frames.drop_first();
    if frames.len() > 1 {
        lemma_frame_for_end(rest);
        lemma_total_duration_front(rest);
        assert(frame_duration(rest[0]) >= 1);
    } else {
        assert(rest =~= Seq::<FrameRef>::empty());
    }
}

/// A looping animation repeats after its total duration.
pub proof fn lemma_looped_animation_wraps(v: AnimationView, elapsed_ms: u64)
    requires
        v.looped,
        v.total_spec() > 0,
        elapsed_ms + v.total_spec() <= u64::MAX,
    ensures
        v.frame_at_spec((elapsed_ms + v.total_spec()) as u64) == v.frame_at_spec(elapsed_ms),
{
    vstd::arithmetic::div_mod::lemma_mod_add_multiples_vanish(elapsed_ms as int, v.total_spec() as int);
}

/// An animation that plays once holds its last frame from its last millisecond on.
pub proof fn lemma_animation_holds_last_frame(v: AnimationView, elapsed_ms: u64)
    requires
        !v.looped,
        v.frames.len() > 0,
        elapsed_ms >= v.total_spec() - 1,
    ensures
        v.frame_at_spec(elapsed_ms) == Some(v.frames.last().index),
{
    lemma_total_duration_front(v.frames);
    lemma_frame_for_end(v.frames);
}

/// Storing under a key then looking it up gives what was stored; other keys are unaffected.
pub proof fn lemma_insert_then_lookup(
    s: Seq<(Seq<char>, AnimationView)>,
    key: Seq<char>,
    value: AnimationView,
    other: Seq<char>,
)
    ensures
        lookup(sorted_insert(s, key, value), key) == Some(value),
        other != key ==> lookup(sorted_insert(s, key, value), other) == lookup(s, other),
    decreases s.len(),
{
    let ins = sorted_insert(s, key, value);
    if s.len() == 0 {
        assert(ins[0] == (key, value));
        assert(ins.drop_first() =~= Seq::<(Seq<char>, AnimationView)>::empty());
        assert(lookup(ins.drop_first(), other) is None);
    } else {
        let t = s.drop_first();
        lemma_insert_then_lookup(t, key, value, other);
        if lex_lt(key, s[0].0) {
            assert(ins[0] == (key, value));
            assert(ins.drop_first() =~= s);
            assert(other != key ==> lookup(ins, other) == lookup(ins.drop_first(), other));
        } else if s[0].0 == key {
            assert(ins[0] == (key, value));
            assert(ins.drop_first() =~= t);
            if other != key {
                assert(lookup(s, other) == lookup(t, other));
            }
        } else {
            assert(ins[0] == s[0]);
            assert(ins.drop_first() =~= sorted_insert(t, key, value));
            if other != key {
                if s[0].0 == other {
                    assert(lookup(s, other) == Some(s[0].1));
                    assert(lookup(ins, other) == Some(s[0].1));
                } else {
                    assert(lookup(s, other) == lookup(t, other));
                    assert(lookup(ins, other) == lookup(sorted_insert(t, key, value), other));
                }
            }
        }
    }
}

/// Where no required animation from the `i`-th on is missing or empty, each of them is there
/// with frames.
proof fn lemma_required_animations_present(m: ManifestView, i: nat, j: nat)
    requires
        m.animation_problem(i) is None,
        i <= j < required_animation_count(),
    ensures
        m.animation_of(required_animation(j as int)) matches Some(a) && a.frames.len() > 0,
    decreases j - i,
{
    if i < j {
        lemma_required_animations_present(m, i + 1, j);
    }
}

proof fn lemma_lookup_fits_at(s: Seq<(Seq<char>, AnimationView)>, key: Seq<char>)
    requires
        forall|i: int| 0 <= i < s.len() ==> (#[trigger] s[i]).1.total_spec() <= u64::MAX,
    ensures
        lookup(s, key) matches Some(a) ==> a.total_spec() <= u64::MAX,
    decreases s.len(),
{
    if s.len() > 0 && s[0].0 != key {
        assert forall|i: int| 0 <= i < s.drop_first().len() implies (#[trigger] s.drop_first()[i]).1.total_spec() <= u64::MAX by {
            assert(s.drop_first()[i] == s[i + 1]);
        }
        lemma_lookup_fits_at(s.drop_first(), key);
    }
}

/// In a manifest whose animations all fit the clock, the animation of every pose does.
pub proof fn lemma_durations_fit_pose(m: ManifestView, id: AnimationId)
    requires
        m.durations_fit(),
    ensures
        m.animation_of(id) matches Some(a) ==> a.total_spec() <= u64::MAX,
{
    lemma_lookup_fits_at(m.animations, id.key_spec());
}

/// Rubbing the head or the back strokes the pet: a point inside a zone named "head" or
/// "back" is a stroke point, and a point inside a zone named "body" is a body point.
pub proof fn lemma_head_and_back_are_stroke_zones(m: ManifestView, i: int, x: int, y: int)
    requires
        0 <= i < m.hit_zones.len(),
        m.hit_zones[i].rect.x <= x < m.hit_zones[i].rect.x + m.hit_zones[i].rect.w,
        m.hit_zones[i].rect.y <= y < m.hit_zones[i].rect.y + m.hit_zones[i].rect.h,
    ensures
        m.hit_zones[i].name == "head"@ ==> m.stroke_zone_at(x, y),
        m.hit_zones[i].name == "back"@ ==> m.stroke_zone_at(x, y),
        m.hit_zones[i].name == "body"@ ==> m.body_zone_at(x, y),
{
    assert(m.hit_zones[i].rect.contains_spec(x, y));
}

/// A manifest that validates holds every pose with frames, spawn points and heart frames,
/// so the pet can be drawn and stroked with it.
pub proof fn lemma_valid_manifest_serves_every_pose(m: ManifestView, id: AnimationId)
    requires
        m.problem() is None,
    ensures
        m.animation_of(id) matches Some(a) && a.frames.len() > 0,
        m.frame_size > 0,
        m.sheet_columns > 0,
        m.heart_spawn_points.len() > 0,
        m.heart_frames.len() > 0,
{
    let j: nat = match id {
        AnimationId::Idle => 0,
        AnimationId::Blink => 1,
        AnimationId::Walk => 2,
        AnimationId::WalkDown => 3,
        AnimationId::WalkUp => 4,
        AnimationId::WalkLeft => 5,
        AnimationId::WalkRight => 6,
        AnimationId::Sit => 7,
        AnimationId::Sleep => 8,
        AnimationId::Happy => 9,
        AnimationId::Poke => 10,
        AnimationId::Dance => 11,
    };
    lemma_required_animations_present(m, 0, j);
}

} // verus!
