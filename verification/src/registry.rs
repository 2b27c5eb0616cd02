//! The room registry: which rooms exist, who hosts each, who views it.

use vstd::prelude::*;
use crate::message::SessionId;

verus! {

/// One viewer of a room, as mathematics: its id and the session behind it.
pub type ViewerEntry = (Seq<char>, SessionId);

/// Whether some entry of `viewers` carries `id`.
pub open spec fn has_viewer(viewers: Seq<ViewerEntry>, id: Seq<char>) -> bool {
    exists|i: int| 0 <= i < viewers.len() && (#[trigger] viewers[i]).0 == id
}

/// The position of an entry that carries `id`, where there is one.
pub open spec fn slot_of(viewers: Seq<ViewerEntry>, id: Seq<char>) -> int {
    choose|i: int| 0 <= i < viewers.len() && (#[trigger] viewers[i]).0 == id
}

/// No id occurs twice.
pub open spec fn ids_distinct(viewers: Seq<ViewerEntry>) -> bool {
    forall|i: int, j: int|
        0 <= i < j < viewers.len() ==> (#[trigger] viewers[i]).0 != (#[trigger] viewers[j]).0
}

/// The session registered under `id`, if any.
pub open spec fn viewer_session(viewers: Seq<ViewerEntry>, id: Seq<char>) -> Option<SessionId> {
    if has_viewer(viewers, id) {
        Some(viewers[slot_of(viewers, id)].1)
    } else {
        None
    }
}

/// `viewers` with `session` registered under `id`: in the place of the entry
/// that carried `id` before, or else at the end.
pub open spec fn put_viewer(viewers: Seq<ViewerEntry>, id: Seq<char>, session: SessionId) -> Seq<
    ViewerEntry,
> {
    if has_viewer(viewers, id) {
        viewers.update(slot_of(viewers, id), (id, session))
    } else {
        viewers.push((id, session))
    }
}

/// `viewers` without the entry that carries `id`; the others keep their order.
pub open spec fn drop_viewer(viewers: Seq<ViewerEntry>, id: Seq<char>) -> Seq<ViewerEntry> {
    if has_viewer(viewers, id) {
        viewers.remove(slot_of(viewers, id))
    } else {
        viewers
    }
}

/// Where no id occurs twice, the entry found under an id is the entry that
/// carries it.
pub proof fn lemma_slot(viewers: Seq<ViewerEntry>, i: int)
    requires
        ids_distinct(viewers),
        0 <= i < viewers.len(),
    ensures
        has_viewer(viewers, viewers[i].0),
        slot_of(viewers, viewers[i].0) == i,
        viewer_session(viewers, viewers[i].0) == Some(viewers[i].1),
{
    let j = slot_of(viewers, viewers[i].0);
    assert(viewers[j].0 == viewers[i].0);
}

/// Registering a viewer keeps the ids distinct, makes the id lead to the new
/// session and leaves every other id where it led before.
pub proof fn lemma_put_viewer(viewers: Seq<ViewerEntry>, id: Seq<char>, session: SessionId)
    requires
        ids_distinct(viewers),
    ensures
        ids_distinct(put_viewer(viewers, id, session)),
        viewer_session(put_viewer(viewers, id, session), id) == Some(session),
        forall|other: Seq<char>|
            other != id ==> #[trigger] viewer_session(put_viewer(viewers, id, session), other)
                == viewer_session(viewers, other),
{
    let after = put_viewer(viewers, id, session);
    let at = if has_viewer(viewers, id) {
        slot_of(viewers, id)
    } else {
        viewers.len() as int
    };
    assert(after[at] == (id, session));
    assert forall|a: int, b: int| 0 <= a < b < after.len() implies (#[trigger] after[a]).0 != (
    #[trigger] after[b]).0 by {
        if a != at && b != at {
            assert(viewers[a].0 != viewers[b].0);
        } else if has_viewer(viewers, id) {
            assert(viewers[a].0 != viewers[b].0);
        } else {
            assert(viewers[a].0 != id);
        }
    }
    lemma_slot(after, at);
    assert forall|other: Seq<char>| other != id implies #[trigger] viewer_session(after, other)
        == viewer_session(viewers, other) by {
        if has_viewer(viewers, other) {
            let k = slot_of(viewers, other);
            assert(after[k] == viewers[k]);
            lemma_slot(after, k);
        } else if has_viewer(after, other) {
            let k = slot_of(after, other);
            assert(viewers[k].0 == other);
        }
    }
}

/// Taking a viewer out keeps the ids distinct, leaves nothing under the id
/// and leaves every other id where it led before.
pub proof fn lemma_drop_viewer(viewers: Seq<ViewerEntry>, id: Seq<char>)
    requires
        ids_distinct(viewers),
    ensures
        ids_distinct(drop_viewer(viewers, id)),
        viewer_session(drop_viewer(viewers, id), id) is None,
        forall|other: Seq<char>|
            other != id ==> #[trigger] viewer_session(drop_viewer(viewers, id), other)
                == viewer_session(viewers, other),
{
    let after = drop_viewer(viewers, id);
    if has_viewer(viewers, id) {
        let at = slot_of(viewers, id);
        assert forall|a: int, b: int| 0 <= a < b < after.len() implies (#[trigger] after[a]).0 != (
        #[trigger] after[b]).0 by {
            let a0 = if a < at { a } else { a + 1 };
            let b0 = if b < at { b } else { b + 1 };
            assert(viewers[a0].0 != viewers[b0].0);
        }
        if has_viewer(after, id) {
            let k = slot_of(after, id);
            let k0 = if k < at { k } else { k + 1 };
            assert(viewers[k0].0 == id);
            lemma_slot(viewers, k0);
        }
        assert forall|other: Seq<char>| other != id implies #[trigger] viewer_session(after, other)
            == viewer_session(viewers, other) by {
            if has_viewer(viewers, other) {
                let k = slot_of(viewers, other);
                let k1 = if k < at { k } else { k - 1 };
                assert(after[k1] == viewers[k]);
                lemma_slot(after, k1);
            } else if has_viewer(after, other) {
                let k = slot_of(after, other);
                let k0 = if k < at { k } else { k + 1 };
                assert(viewers[k0].0 == other);
            }
        }
    }
}

/// The sessions of `viewers`, in order.
pub open spec fn sessions_of(viewers: Seq<ViewerEntry>) -> Seq<SessionId> {
    viewers.map_values(|e: ViewerEntry| e.1)
}

/// A room as mathematics: its host, if it has one, and its viewers in the
/// order in which they joined.
pub struct RoomView {
    pub host: Option<SessionId>,
    pub viewers: Seq<ViewerEntry>,
}

/// The registry as mathematics: room code to room.
pub type RegistryView = Map<Seq<char>, RoomView>;

/// In every room no viewer id occurs twice. (That a room has at most one host
/// is in the shape of [`RoomView`].)
pub open spec fn consistent(registry: RegistryView) -> bool {
    forall|code: Seq<char>| #[trigger]
        registry.contains_key(code) ==> ids_distinct(registry[code].viewers)
}

/// A room that `host` has just opened.
pub open spec fn fresh_room(host: SessionId) -> RoomView {
    RoomView { host: Some(host), viewers: Seq::empty() }
}

/// The registry after `host` has opened `code`. A room that existed under
/// that code is replaced, its host and viewers forgotten.
pub open spec fn with_room(registry: RegistryView, code: Seq<char>, host: SessionId) -> RegistryView {
    registry.insert(code, fresh_room(host))
}

/// The registry after `session` has joined `code` as viewer `id`; unchanged
/// where there is no such room.
pub open spec fn with_viewer(
    registry: RegistryView,
    code: Seq<char>,
    id: Seq<char>,
    session: SessionId,
) -> RegistryView {
    if registry.contains_key(code) {
        registry.insert(
            code,
            RoomView {
                host: registry[code].host,
                viewers: put_viewer(registry[code].viewers, id, session),
            },
        )
    } else {
        registry
    }
}

/// The registry after viewer `id` has left `code`; unchanged where there is
/// no such room.
pub open spec fn without_viewer(registry: RegistryView, code: Seq<char>, id: Seq<char>) -> RegistryView {
    if registry.contains_key(code) {
        registry.insert(
            code,
            RoomView {
                host: registry[code].host,
                viewers: drop_viewer(registry[code].viewers, id),
            },
        )
    } else {
        registry
    }
}

struct ViewerSlot {
    id: String,
    session: SessionId,
}

/// One room: its code, its host and its viewers.
pub struct Room {
    code: String,
    host: Option<SessionId>,
    viewers: Vec<ViewerSlot>,
}

spec fn entries(slots: Seq<ViewerSlot>) -> Seq<ViewerEntry> {
    slots.map_values(|s: ViewerSlot| (s.id@, s.session))
}

impl Room {
    #[verifier::type_invariant]
    spec fn well_formed(self) -> bool {
        ids_distinct(entries(self.viewers@))
    }

    pub closed spec fn view(&self) -> RoomView {
        RoomView { host: self.host, viewers: entries(self.viewers@) }
    }

    /// The session that hosts the room.
    pub fn host(&self) -> (h: Option<SessionId>)
        ensures
            h == self@.host,
    {
        self.host
    }

    /// How many viewers the room has.
    pub fn viewer_count(&self) -> (n: usize)
        ensures
            n == self@.viewers.len(),
            ids_distinct(self@.viewers),
    {
        proof {
            use_type_invariant(self);
        }
        self.viewers.len()
    }

    fn slot(&self, id: &String) -> (r: Option<usize>)
        ensures
            ids_distinct(self@.viewers),
            match r {
                Some(i) => has_viewer(self@.viewers, id@) && i == slot_of(self@.viewers, id@),
                None => !has_viewer(self@.viewers, id@),
            },
    {
        proof {
            use_type_invariant(self);
        }
        let mut i: usize = 0;
        while i < self.viewers.len()
            invariant
                i <= self.viewers.len(),
                ids_distinct(self@.viewers),
                forall|k: int| 0 <= k < i ==> (#[trigger] self@.viewers[k]).0 != id@,
            decreases self.viewers.len() - i,
        {
            if self.viewers[i].id == *id {
                assert(self@.viewers[i as int].0 == id@);
                return Some(i);
            }
            i += 1;
        }
        None
    }

    /// The session registered as viewer `id`.
    pub fn viewer(&self, id: &String) -> (s: Option<SessionId>)
        ensures
            s == viewer_session(self@.viewers, id@),
    {
        match self.slot(id) {
            Some(i) => Some(self.viewers[i].session),
            None => None,
        }
    }

    /// The sessions of all viewers, in the order in which they joined.
    pub fn viewer_sessions(&self) -> (out: Vec<SessionId>)
        ensures
            out@ == sessions_of(self@.viewers),
    {
        let mut out: Vec<SessionId> = Vec::new();
        let mut i: usize = 0;
        while i < self.viewers.len()
            invariant
                i <= self.viewers.len(),
                out@ == sessions_of(self@.viewers.take(i as int)),
            decreases self.viewers.len() - i,
        {
            out.push(self.viewers[i].session);
            assert(sessions_of(self@.viewers.take(i + 1)) == sessions_of(
                self@.viewers.take(i as int),
            ).push(self@.viewers[i as int].1));
            i += 1;
        }
        assert(self@.viewers.take(i as int) == self@.viewers);
        out
    }
}


impl Room {
    /// A room that `host` has just opened under `code`.
    fn open(code: String, host: SessionId) -> (room: Room)
        ensures
            room.code == code,
            room@ == fresh_room(host),
    {
        let room = Room { code, host: Some(host), viewers: Vec::new() };
        assert(room@.viewers =~= Seq::empty());
        room
    }

    /// Registers `session` as viewer `id`.
    fn insert(&mut self, id: String, session: SessionId)
        ensures
            final(self).code == old(self).code,
            final(self)@.host == old(self)@.host,
            final(self)@.viewers == put_viewer(old(self)@.viewers, id@, session),
            ids_distinct(final(self)@.viewers),
    {
        let found = self.slot(&id);
        let ghost before = entries(self.viewers@);
        let ghost key = id@;
        let mut viewers: Vec<ViewerSlot> = Vec::new();
        std::mem::swap(&mut viewers, &mut self.viewers);
        match found {
            Some(i) => {
                viewers.set(i, ViewerSlot { id, session });
                assert(entries(viewers@) =~= before.update(i as int, (key, session)));
                assert forall|a: int, b: int| 0 <= a < b < viewers@.len() implies (
                #[trigger] entries(viewers@)[a]).0 != (#[trigger] entries(viewers@)[b]).0 by {
                    assert(before[a].0 != before[b].0);
                    assert(before[i as int].0 == key);
                }
            },
            None => {
                viewers.push(ViewerSlot { id, session });
                assert(entries(viewers@) =~= before.push((key, session)));
                assert forall|a: int, b: int| 0 <= a < b < viewers@.len() implies (
                #[trigger] entries(viewers@)[a]).0 != (#[trigger] entries(viewers@)[b]).0 by {
                    if b < before.len() {
                        assert(before[a].0 != before[b].0);
                    } else {
                        assert(before[a].0 != key);
                    }
                }
            },
        }
        self.viewers = viewers;
    }

    /// Forgets viewer `id`.
    fn remove(&mut self, id: &String)
        ensures
            final(self).code == old(self).code,
            final(self)@.host == old(self)@.host,
            final(self)@.viewers == drop_viewer(old(self)@.viewers, id@),
            ids_distinct(final(self)@.viewers),
    {
        match self.slot(id) {
            Some(i) => {
                let ghost before = entries(self.viewers@);
                let mut viewers: Vec<ViewerSlot> = Vec::new();
                std::mem::swap(&mut viewers, &mut self.viewers);
                viewers.remove(i);
                assert(entries(viewers@) =~= before.remove(i as int));
                assert forall|a: int, b: int| 0 <= a < b < viewers@.len() implies (
                #[trigger] entries(viewers@)[a]).0 != (#[trigger] entries(viewers@)[b]).0 by {
                    let a0 = if a < i { a } else { a + 1 };
                    let b0 = if b < i { b } else { b + 1 };
                    assert(before[a0].0 != before[b0].0);
                }
                self.viewers = viewers;
            },
            None => {},
        }
    }
}

/// Whether one of `rooms` has the code `code`.
spec fn has_code(rooms: Seq<Room>, code: Seq<char>) -> bool {
    exists|i: int| 0 <= i < rooms.len() && (#[trigger] rooms[i]).code@ == code
}

/// The position of a room with the code `code`, where there is one.
spec fn place_of(rooms: Seq<Room>, code: Seq<char>) -> int {
    choose|i: int| 0 <= i < rooms.len() && (#[trigger] rooms[i]).code@ == code
}

/// No room code occurs twice.
spec fn codes_distinct(rooms: Seq<Room>) -> bool {
    forall|i: int, j: int|
        0 <= i < j < rooms.len() ==> (#[trigger] rooms[i]).code@ != (#[trigger] rooms[j]).code@
}

/// In each room no viewer id occurs twice.
spec fn rooms_sound(rooms: Seq<Room>) -> bool {
    forall|i: int| 0 <= i < rooms.len() ==> ids_distinct((#[trigger] rooms[i])@.viewers)
}

/// The rooms as a map from code to room.
spec fn as_map(rooms: Seq<Room>) -> RegistryView {
    Map::new(|code: Seq<char>| has_code(rooms, code), |code: Seq<char>| rooms[place_of(rooms, code)]@)
}

/// Where the codes are distinct, the room found under a code is the room that
/// carries it.
proof fn lemma_place(rooms: Seq<Room>, i: int)
    requires
        codes_distinct(rooms),
        0 <= i < rooms.len(),
    ensures
        has_code(rooms, rooms[i].code@),
        place_of(rooms, rooms[i].code@) == i,
        as_map(rooms).contains_key(rooms[i].code@),
        as_map(rooms)[rooms[i].code@] == rooms[i]@,
{
    let j = place_of(rooms, rooms[i].code@);
    assert(rooms[j].code@ == rooms[i].code@);
}

proof fn lemma_sound_map(rooms: Seq<Room>)
    requires
        codes_distinct(rooms),
        rooms_sound(rooms),
    ensures
        consistent(as_map(rooms)),
{
    assert forall|code: Seq<char>| #[trigger] as_map(rooms).contains_key(code) implies ids_distinct(
        as_map(rooms)[code].viewers,
    ) by {
        let i = place_of(rooms, code);
        assert(rooms[i].code@ == code);
    }
}

/// Replacing one room by a room of the same code replaces its entry in the map.
proof fn lemma_replaced(before: Seq<Room>, after: Seq<Room>, at: int)
    requires
        codes_distinct(before),
        0 <= at < before.len(),
        after.len() == before.len(),
        after[at].code@ == before[at].code@,
        forall|k: int| 0 <= k < before.len() && k != at ==> after[k] == before[k],
    ensures
        codes_distinct(after),
        as_map(after) == as_map(before).insert(before[at].code@, after[at]@),
{
    let key = before[at].code@;
    assert forall|i: int, j: int| 0 <= i < j < after.len() implies (#[trigger] after[i]).code@ != (
    #[trigger] after[j]).code@ by {
        assert(before[i].code@ != before[j].code@);
    }
    assert forall|c: Seq<char>| as_map(after).contains_key(c) <==> as_map(before).insert(
        key,
        after[at]@,
    ).contains_key(c) by {
        if has_code(after, c) {
            let k = place_of(after, c);
            assert(before[k].code@ == c);
        }
        if has_code(before, c) {
            let k = place_of(before, c);
            assert(after[k].code@ == c);
        }
        assert(after[at].code@ == key);
    }
    assert forall|c: Seq<char>| as_map(after).contains_key(c) implies as_map(after)[c] == as_map(
        before,
    ).insert(key, after[at]@)[c] by {
        let k = place_of(after, c);
        lemma_place(after, k);
        lemma_place(before, k);
    }
    assert(as_map(after) =~= as_map(before).insert(key, after[at]@));
}

/// Adding a room under a code that no room has adds its entry to the map.
proof fn lemma_pushed(before: Seq<Room>, room: Room)
    requires
        codes_distinct(before),
        !has_code(before, room.code@),
    ensures
        codes_distinct(before.push(room)),
        as_map(before.push(room)) == as_map(before).insert(room.code@, room@),
{
    let after = before.push(room);
    let key = room.code@;
    assert forall|i: int, j: int| 0 <= i < j < after.len() implies (#[trigger] after[i]).code@ != (
    #[trigger] after[j]).code@ by {
        if j < before.len() {
            assert(before[i].code@ != before[j].code@);
        } else {
            assert(before[i].code@ != key);
        }
    }
    assert forall|c: Seq<char>| as_map(after).contains_key(c) <==> as_map(before).insert(
        key,
        room@,
    ).contains_key(c) by {
        if has_code(after, c) {
            let k = place_of(after, c);
            if k < before.len() {
                assert(before[k].code@ == c);
            }
        }
        if has_code(before, c) {
            let k = place_of(before, c);
            assert(after[k].code@ == c);
        }
        assert(after[before.len() as int].code@ == key);
    }
    assert forall|c: Seq<char>| as_map(after).contains_key(c) implies as_map(after)[c] == as_map(
        before,
    ).insert(key, room@)[c] by {
        let k = place_of(after, c);
        lemma_place(after, k);
        if k < before.len() {
            lemma_place(before, k);
        }
    }
    assert(as_map(after) =~= as_map(before).insert(key, room@));
}

/// Taking one room out takes its entry out of the map.
proof fn lemma_removed(before: Seq<Room>, at: int)
    requires
        codes_distinct(before),
        0 <= at < before.len(),
    ensures
        codes_distinct(before.remove(at)),
        as_map(before.remove(at)) == as_map(before).remove(before[at].code@),
{
    let after = before.remove(at);
    let key = before[at].code@;
    assert forall|i: int, j: int| 0 <= i < j < after.len() implies (#[trigger] after[i]).code@ != (
    #[trigger] after[j]).code@ by {
        let i0 = if i < at { i } else { i + 1 };
        let j0 = if j < at { j } else { j + 1 };
        assert(before[i0].code@ != before[j0].code@);
    }
    assert forall|c: Seq<char>| as_map(after).contains_key(c) <==> as_map(before).remove(
        key,
    ).contains_key(c) by {
        if has_code(after, c) {
            let k = place_of(after, c);
            let k0 = if k < at { k } else { k + 1 };
            assert(before[k0].code@ == c);
            if c == key {
                if k0 < at {
                    assert(before[k0].code@ != before[at].code@);
                } else {
                    assert(before[at].code@ != before[k0].code@);
                }
            }
        }
        if has_code(before, c) && c != key {
            let k = place_of(before, c);
            let k1 = if k < at { k } else { k - 1 };
            assert(after[k1].code@ == c);
        }
    }
    assert forall|c: Seq<char>| as_map(after).contains_key(c) implies as_map(after)[c] == as_map(
        before,
    ).remove(key)[c] by {
        let k = place_of(after, c);
        let k0 = if k < at { k } else { k + 1 };
        lemma_place(after, k);
        lemma_place(before, k0);
    }
    assert(as_map(after) =~= as_map(before).remove(key));
}

/// The process-wide table of rooms.
pub struct Registry {
    rooms: Vec<Room>,
}

impl Registry {
    #[verifier::type_invariant]
    spec fn well_formed(self) -> bool {
        codes_distinct(self.rooms@) && rooms_sound(self.rooms@)
    }

    pub closed spec fn view(&self) -> RegistryView {
        as_map(self.rooms@)
    }

    /// A registry without rooms.
    pub fn new() -> (registry: Registry)
        ensures
            registry@ == Map::<Seq<char>, RoomView>::empty(),
    {
        let registry = Registry { rooms: Vec::new() };
        assert(registry@ =~= Map::<Seq<char>, RoomView>::empty());
        registry
    }

    fn place(&self, code: &String) -> (r: Option<usize>)
        ensures
            codes_distinct(self.rooms@),
            rooms_sound(self.rooms@),
            consistent(self@),
            match r {
                Some(i) => i < self.rooms@.len() && self.rooms@[i as int].code@ == code@
                    && self@.contains_key(code@) && self@[code@] == self.rooms@[i as int]@,
                None => !has_code(self.rooms@, code@) && !self@.contains_key(code@),
            },
    {
        proof {
            use_type_invariant(self);
            lemma_sound_map(self.rooms@);
        }
        let mut i: usize = 0;
        while i < self.rooms.len()
            invariant
                i <= self.rooms.len(),
                codes_distinct(self.rooms@),
                rooms_sound(self.rooms@),
                consistent(self@),
                forall|k: int| 0 <= k < i ==> (#[trigger] self.rooms@[k]).code@ != code@,
            decreases self.rooms.len() - i,
        {
            if self.rooms[i].code == *code {
                proof {
                    lemma_place(self.rooms@, i as int);
                }
                return Some(i);
            }
            i += 1;
        }
        None
    }

    /// No room of any registry holds a viewer id twice. The call does nothing
    /// when it runs; it is there for what it states.
    pub fn always_consistent(&self)
        ensures
            consistent(self@),
    {
        proof {
            use_type_invariant(self);
            lemma_sound_map(self.rooms@);
        }
    }

    /// Opens room `code` with `host` as its host and no viewers. A room that
    /// existed under that code is replaced.
    pub fn create_room(&mut self, code: String, host: SessionId)
        ensures
            final(self)@ == with_room(old(self)@, code@, host),
            consistent(final(self)@),
    {
        let found = self.place(&code);
        let ghost before = self.rooms@;
        let room = Room::open(code, host);
        let mut rooms: Vec<Room> = Vec::new();
        std::mem::swap(&mut rooms, &mut self.rooms);
        match found {
            Some(i) => {
                rooms.set(i, room);
                proof {
                    lemma_replaced(before, rooms@, i as int);
                }
            },
            None => {
                rooms.push(room);
                proof {
                    lemma_pushed(before, room);
                }
            },
        }
        proof {
            assert(rooms_sound(rooms@));
            lemma_sound_map(rooms@);
        }
        self.rooms = rooms;
    }

    /// The room registered under `code`.
    pub fn lookup_room(&self, code: &String) -> (found: Option<&Room>)
        ensures
            consistent(self@),
            match found {
                Some(room) => self@.contains_key(code@) && self@[code@] == room@,
                None => !self@.contains_key(code@),
            },
    {
        match self.place(code) {
            Some(i) => Some(&self.rooms[i]),
            None => None,
        }
    }

    /// Registers `session` as viewer `viewer_id` of room `code`. Returns
    /// `false`, and changes nothing, where there is no such room.
    pub fn add_viewer(&mut self, code: &String, viewer_id: String, session: SessionId) -> (added:
        bool)
        ensures
            added == old(self)@.contains_key(code@),
            final(self)@ == with_viewer(old(self)@, code@, viewer_id@, session),
            consistent(final(self)@),
    {
        match self.place(code) {
            Some(i) => {
                let ghost before = self.rooms@;
                let mut rooms: Vec<Room> = Vec::new();
                std::mem::swap(&mut rooms, &mut self.rooms);
                let mut room = rooms.remove(i);
                room.insert(viewer_id, session);
                rooms.insert(i, room);
                proof {
                    lemma_replaced(before, rooms@, i as int);
                    assert(rooms_sound(rooms@));
                    lemma_sound_map(rooms@);
                }
                self.rooms = rooms;
                true
            },
            None => false,
        }
    }

    /// Removes room `code` with all its viewers.
    pub fn remove_host(&mut self, code: &String)
        ensures
            final(self)@ == old(self)@.remove(code@),
            consistent(final(self)@),
    {
        match self.place(code) {
            Some(i) => {
                let ghost before = self.rooms@;
                let mut rooms: Vec<Room> = Vec::new();
                std::mem::swap(&mut rooms, &mut self.rooms);
                rooms.remove(i);
                proof {
                    lemma_removed(before, i as int);
                    assert(rooms_sound(rooms@));
                    lemma_sound_map(rooms@);
                }
                self.rooms = rooms;
            },
            None => {
                assert(self@ =~= self@.remove(code@));
            },
        }
    }

    /// Removes viewer `viewer_id` from room `code`. The room and its other
    /// viewers stay as they are.
    pub fn remove_viewer(&mut self, code: &String, viewer_id: &String)
        ensures
            final(self)@ == without_viewer(old(self)@, code@, viewer_id@),
            consistent(final(self)@),
    {
        match self.place(code) {
            Some(i) => {
                let ghost before = self.rooms@;
                let mut rooms: Vec<Room> = Vec::new();
                std::mem::swap(&mut rooms, &mut self.rooms);
                let mut room = rooms.remove(i);
                room.remove(viewer_id);
                rooms.insert(i, room);
                proof {
                    lemma_replaced(before, rooms@, i as int);
                    assert(rooms_sound(rooms@));
                    lemma_sound_map(rooms@);
                }
                self.rooms = rooms;
            },
            None => {},
        }
    }

    /// Removes every room.
    pub fn clear(&mut self)
        ensures
            final(self)@ == Map::<Seq<char>, RoomView>::empty(),
            consistent(final(self)@),
    {
        self.rooms = Vec::new();
        assert(self@ =~= Map::<Seq<char>, RoomView>::empty());
    }

    /// Whether there is no room.
    pub fn is_empty(&self) -> (empty: bool)
        ensures
            empty == (self@ == Map::<Seq<char>, RoomView>::empty()),
    {
        proof {
            use_type_invariant(self);
            if self.rooms@.len() > 0 {
                lemma_place(self.rooms@, 0);
            } else {
                assert(self@ =~= Map::<Seq<char>, RoomView>::empty());
            }
        }
        self.rooms.len() == 0
    }
}

} // verus!
