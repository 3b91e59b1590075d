//! Save slots: how a file in the repository directory names a slot, and the
//! listing that callers see.

use chrono::Duration;
use chrono_humanize::HumanTime;
use vstd::prelude::*;

verus! {

/// Length of the reserved extension with its dot.
pub const SUFFIX_LEN: usize = 5;

/// The furthest from now, in seconds either way, that an age is put in
/// words for. No two moments lie further apart.
pub const MAX_AGE_SECONDS: i64 = 9_000_000_000_000_000;

/// Moments are counted in nanoseconds since the epoch.
pub const NANOS_PER_SECOND: u64 = 1_000_000_000;

/// The reserved extension with its dot: `.msav`.
pub open spec fn slot_suffix() -> Seq<char> {
    seq!['.', 'm', 's', 'a', 'v']
}

/// Whether a file of this name is a slot: a non-empty identifier and then
/// the reserved extension. Other files are invisible.
pub open spec fn is_slot_file(file_name: Seq<char>) -> bool {
    &&& file_name.len() > SUFFIX_LEN as int
    &&& file_name.subrange(file_name.len() - SUFFIX_LEN as int, file_name.len() as int)
        == slot_suffix()
}

/// The identifier of the slot that a file name stands for.
pub open spec fn identifier_of(file_name: Seq<char>) -> Seq<char> {
    file_name.subrange(0, file_name.len() - SUFFIX_LEN as int)
}

/// The file name under which a slot is stored.
pub open spec fn file_name_of(identifier: Seq<char>) -> Seq<char> {
    identifier + slot_suffix()
}

/// A named, persisted snapshot of the active save.
#[derive(Clone, Debug)]
pub struct SaveSlot {
    /// The slot's name: its file name without the extension.
    pub identifier: String,
    /// Its file name inside the repository directory.
    pub storage_path: String,
    /// When the file was last written, in nanoseconds since the epoch.
    pub last_modified: u64,
}

/// One readable entry of the repository directory.
#[derive(Clone, Debug)]
pub struct DirEntry {
    pub file_name: String,
    /// When the file was last written, in nanoseconds since the epoch, where
    /// the directory could tell.
    pub modified: Option<u64>,
}

/// The mathematical content of a [`SaveSlot`].
pub ghost struct SlotView {
    pub identifier: Seq<char>,
    pub storage_path: Seq<char>,
    pub last_modified: u64,
}

/// The mathematical content of a [`DirEntry`].
pub ghost struct EntryView {
    pub file_name: Seq<char>,
    pub modified: Option<u64>,
}

impl View for SaveSlot {
    type V = SlotView;

    open spec fn view(&self) -> SlotView {
        SlotView {
            identifier: self.identifier@,
            storage_path: self.storage_path@,
            last_modified: self.last_modified,
        }
    }
}

impl View for DirEntry {
    type V = EntryView;

    open spec fn view(&self) -> EntryView {
        EntryView { file_name: self.file_name@, modified: self.modified }
    }
}

impl SlotView {
    /// Whether the slot is stored under the file name of its identifier.
    pub open spec fn well_formed(self) -> bool {
        &&& is_slot_file(self.storage_path)
        &&& self.identifier == identifier_of(self.storage_path)
    }
}

/// The content of each slot, in order.
pub open spec fn slot_views(slots: Seq<SaveSlot>) -> Seq<SlotView> {
    slots.map_values(|slot: SaveSlot| slot@)
}

/// The content of each entry, in order.
pub open spec fn entry_views(entries: Seq<DirEntry>) -> Seq<EntryView> {
    entries.map_values(|entry: DirEntry| entry@)
}

/// Whether a listing shows an entry: it is a slot file, and the directory
/// could tell when it was last written. Any other entry is passed over.
pub open spec fn is_shown(entry: EntryView) -> bool {
    is_slot_file(entry.file_name) && entry.modified is Some
}

/// The slot that a directory entry stands for.
pub open spec fn slot_of(entry: EntryView) -> SlotView {
    SlotView {
        identifier: identifier_of(entry.file_name),
        storage_path: entry.file_name,
        last_modified: entry.modified->0,
    }
}

/// The slots that a listing shows among `entries`, in directory order.
pub open spec fn slot_entries(entries: Seq<EntryView>) -> Seq<SlotView> {
    entries.filter(|entry: EntryView| is_shown(entry)).map_values(
        |entry: EntryView| slot_of(entry),
    )
}

/// Whether `a` is `b` or stands before it in the dictionary, character by
/// character in the order of their code points.
pub open spec fn name_le(a: Seq<char>, b: Seq<char>) -> bool
    decreases a.len(),
{
    if a.len() == 0 {
        true
    } else if b.len() == 0 {
        false
    } else if a[0] != b[0] {
        (a[0] as int) < (b[0] as int)
    } else {
        name_le(a.drop_first(), b.drop_first())
    }
}

/// Whether a listing may show `earlier` before `later`: the more recently
/// modified slot goes first, and of two slots of one age the one whose
/// identifier is first in the dictionary.
pub open spec fn goes_before(earlier: SlotView, later: SlotView) -> bool {
    earlier.last_modified > later.last_modified || (earlier.last_modified == later.last_modified
        && name_le(earlier.identifier, later.identifier))
}

/// Where `slot` goes into a listing: behind the leading slots that go before
/// it.
pub open spec fn insert_position(listed: Seq<SlotView>, slot: SlotView) -> int
    decreases listed.len(),
{
    if listed.len() == 0 || !goes_before(listed[0], slot) {
        0
    } else {
        1 + insert_position(listed.drop_first(), slot)
    }
}

/// The listing of a directory: the slots that it shows, each put where it
/// goes among those that the directory gave before it.
pub open spec fn listing(entries: Seq<EntryView>) -> Seq<SlotView>
    decreases entries.len(),
{
    if entries.len() == 0 {
        Seq::empty()
    } else if is_shown(entries.last()) {
        let before = listing(entries.drop_last());
        before.insert(
            insert_position(before, slot_of(entries.last())),
            slot_of(entries.last()),
        )
    } else {
        listing(entries.drop_last())
    }
}

/// Whether every slot is at least as recent as the one behind it.
pub open spec fn newest_first(listed: Seq<SlotView>) -> bool {
    forall|i: int, j: int|
        0 <= i < j < listed.len() ==> listed[i].last_modified >= listed[j].last_modified
}

/// Whether every slot goes before each one behind it.
pub open spec fn in_order(listed: Seq<SlotView>) -> bool {
    forall|i: int, j: int| 0 <= i < j < listed.len() ==> goes_before(listed[i], listed[j])
}

/// The signed distance from `now` to `moment` in whole seconds, negative for
/// a moment in the past. A part of a second is dropped.
pub open spec fn age_seconds(moment: u64, now: u64) -> int {
    if moment >= now {
        (moment - now) / (NANOS_PER_SECOND as int)
    } else {
        -((now - moment) / (NANOS_PER_SECOND as int))
    }
}

/// The words in which `chrono_humanize` puts a distance of so many seconds
/// from now.
pub uninterp spec fn human_time_text(seconds: int) -> Seq<char>;

/// Trusted: `chrono::Duration::seconds`, `chrono_humanize::HumanTime::from`
/// and the latter's plain `Display`. The first panics beyond a thousandth of
/// `i64::MAX`; within that, the text depends on the number of seconds alone.
#[verifier::external_body]
fn human_time(seconds: i64) -> (text: String)
    requires
        -(MAX_AGE_SECONDS as int) <= seconds <= MAX_AGE_SECONDS as int,
    ensures
        text@ == human_time_text(seconds as int),
{
    HumanTime::from(Duration::seconds(seconds)).to_string()
}

/// Whether a slot can be saved under `name`: only a name that is not empty
/// gives a file that a listing shows again.
pub open spec fn can_be_identifier(name: Seq<char>) -> bool {
    name.len() > 0
}

/// Whether a slot can be saved under `name`. A caller tests this before it
/// saves: the file of an empty name would be no slot.
pub fn is_identifier(name: &str) -> (usable: bool)
    ensures
        usable == can_be_identifier(name@),
        usable == is_slot_file(file_name_of(name@)),
{
    proof {
        names_and_identifiers_agree(name@);
    }
    name.unicode_len() > 0
}

/// The identifier of the slot stored in `file_name`, or `None` where the
/// file is no slot.
pub fn slot_identifier(file_name: &str) -> (identifier: Option<String>)
    ensures
        identifier is Some <==> is_slot_file(file_name@),
        identifier is Some ==> identifier->0@ == identifier_of(file_name@),
{
    let n: usize = file_name.unicode_len();
    if n <= SUFFIX_LEN {
        return None;
    }
    let stem: usize = n - SUFFIX_LEN;
    let ends = file_name.get_char(stem) == '.' && file_name.get_char(stem + 1) == 'm'
        && file_name.get_char(stem + 2) == 's' && file_name.get_char(stem + 3) == 'a'
        && file_name.get_char(stem + 4) == 'v';
    let ghost tail = file_name@.subrange(stem as int, n as int);
    if ends {
        assert(tail =~= slot_suffix());
        Some(String::from_str(file_name.substring_char(0, stem)))
    } else {
        assert(tail[0] == file_name@[stem as int]);
        assert(tail[1] == file_name@[stem + 1]);
        assert(tail[2] == file_name@[stem + 2]);
        assert(tail[3] == file_name@[stem + 3]);
        assert(tail[4] == file_name@[stem + 4]);
        None
    }
}

/// The file name under which the slot `identifier` is stored.
pub fn slot_file_name(identifier: &str) -> (file_name: String)
    ensures
        file_name@ == file_name_of(identifier@),
{
    proof {
        reveal_strlit(".msav");
        assert(".msav"@ =~= slot_suffix());
    }
    String::from_str(identifier).concat(".msav")
}

/// Whether identifier `a` is `b` or stands before it in the dictionary.
pub fn identifier_le(a: &str, b: &str) -> (le: bool)
    ensures
        le == name_le(a@, b@),
{
    let n: usize = a.unicode_len();
    let m: usize = b.unicode_len();
    let mut i: usize = 0;
    assert(a@.subrange(0, n as int) =~= a@);
    assert(b@.subrange(0, m as int) =~= b@);
    while i < n && i < m
        invariant
            i <= n,
            i <= m,
            n == a@.len(),
            m == b@.len(),
            name_le(a@, b@) == name_le(
                a@.subrange(i as int, n as int),
                b@.subrange(i as int, m as int),
            ),
        decreases n - i,
    {
        let x = a.get_char(i);
        let y = b.get_char(i);
        proof {
            let rest_a = a@.subrange(i as int, n as int);
            let rest_b = b@.subrange(i as int, m as int);
            assert(rest_a[0] == x);
            assert(rest_b[0] == y);
            assert(rest_a.drop_first() =~= a@.subrange(i + 1, n as int));
            assert(rest_b.drop_first() =~= b@.subrange(i + 1, m as int));
        }
        if x != y {
            return (x as u32) < (y as u32);
        }
        i += 1;
    }
    proof {
        assert(a@.subrange(i as int, n as int).len() == n - i);
        assert(b@.subrange(i as int, m as int).len() == m - i);
    }
    i == n
}

fn insert_point(slots: &Vec<SaveSlot>, slot: &SaveSlot) -> (at: usize)
    ensures
        at == insert_position(slot_views(slots@), slot@),
        at <= slots@.len(),
{
    let ghost listed = slot_views(slots@);
    let mut at: usize = 0;
    assert(listed.subrange(0, listed.len() as int) =~= listed);
    loop
        invariant
            at <= slots@.len(),
            listed == slot_views(slots@),
            insert_position(listed, slot@) == at + insert_position(
                listed.subrange(at as int, listed.len() as int),
                slot@,
            ),
        ensures
            at <= slots@.len(),
            at == insert_position(listed, slot@),
        decreases slots@.len() - at,
    {
        if at >= slots.len() {
            assert(listed.subrange(at as int, listed.len() as int).len() == 0);
            break ;
        }
        let here = &slots[at];
        let ghost rest = listed.subrange(at as int, listed.len() as int);
        assert(rest[0] == here@);
        let before = here.last_modified > slot.last_modified || (here.last_modified
            == slot.last_modified && identifier_le(
            here.identifier.as_str(),
            slot.identifier.as_str(),
        ));
        if !before {
            break ;
        }
        assert(rest.drop_first() =~= listed.subrange(at + 1, listed.len() as int));
        at += 1;
    }
    at
}

/// The listing of a directory: the entries that are slots, most recently
/// modified first, and those of one age by identifier. Entries that are no
/// slots are left out, and so is a slot whose time the directory could not
/// tell.
pub fn list(entries: &Vec<DirEntry>) -> (slots: Vec<SaveSlot>)
    ensures
        slot_views(slots@) == listing(entry_views(entries@)),
        newest_first(slot_views(slots@)),
        in_order(slot_views(slots@)),
        slot_views(slots@).to_multiset() == slot_entries(
            entry_views(entries@),
        ).to_multiset(),
        forall|i: int| 0 <= i < slots@.len() ==> (#[trigger] slots@[i])@.well_formed(),
{
    let ghost all = entry_views(entries@);
    let mut slots: Vec<SaveSlot> = Vec::new();
    let mut i: usize = 0;
    assert(all.subrange(0, 0) =~= Seq::<EntryView>::empty());
    assert(slot_views(slots@) =~= Seq::<SlotView>::empty());
    while i < entries.len()
        invariant
            i <= entries@.len(),
            all == entry_views(entries@),
            slot_views(slots@) == listing(all.subrange(0, i as int)),
            forall|k: int| 0 <= k < slots@.len() ==> (#[trigger] slots@[k])@.well_formed(),
        decreases entries@.len() - i,
    {
        let entry = &entries[i];
        let ghost seen = all.subrange(0, i + 1);
        let ghost before = slot_views(slots@);
        proof {
            assert(seen.drop_last() =~= all.subrange(0, i as int));
            assert(seen.last() == entry@);
        }
        match (slot_identifier(entry.file_name.as_str()), entry.modified) {
            (Some(identifier), Some(last_modified)) => {
                let slot = SaveSlot {
                    identifier,
                    storage_path: entry.file_name.clone(),
                    last_modified,
                };
                assert(slot@ == slot_of(entry@));
                let at = insert_point(&slots, &slot);
                slots.insert(at, slot);
                assert(slot_views(slots@) =~= before.insert(at as int, slot_of(entry@)));
            },
            _ => {},
        }
        i += 1;
    }
    proof {
        assert(all.subrange(0, i as int) =~= all);
        listing_is_in_order(all);
        listing_holds_the_slots(all);
    }
    slots
}

/// The distance in whole seconds from `now` to the slot's last
/// modification, negative once it lies in the past.
pub fn age_in_seconds(last_modified: u64, now: u64) -> (seconds: i64)
    ensures
        seconds as int == age_seconds(last_modified, now),
        -(MAX_AGE_SECONDS as int) <= seconds <= MAX_AGE_SECONDS as int,
{
    if last_modified >= now {
        let ahead: u64 = (last_modified - now) / NANOS_PER_SECOND;
        ahead as i64
    } else {
        let behind: u64 = (now - last_modified) / NANOS_PER_SECOND;
        -(behind as i64)
    }
}

impl SaveSlot {
    /// How long ago the slot was written, in words, as seen at `now`
    /// (nanoseconds since the epoch).
    pub fn age(&self, now: u64) -> (text: String)
        ensures
            text@ == human_time_text(age_seconds(self.last_modified, now)),
    {
        human_time(age_in_seconds(self.last_modified, now))
    }
}

/// Of two names, one is the other or stands before it.
pub proof fn name_le_is_total(a: Seq<char>, b: Seq<char>)
    ensures
        name_le(a, b) || name_le(b, a),
    decreases a.len(),
{
    if a.len() > 0 && b.len() > 0 && a[0] == b[0] {
        name_le_is_total(a.drop_first(), b.drop_first());
    }
}

/// The dictionary order of names carries over a name in between.
pub proof fn name_le_is_transitive(a: Seq<char>, b: Seq<char>, c: Seq<char>)
    requires
        name_le(a, b),
        name_le(b, c),
    ensures
        name_le(a, c),
    decreases a.len(),
{
    if a.len() > 0 && a[0] == b[0] && b[0] == c[0] {
        name_le_is_transitive(a.drop_first(), b.drop_first(), c.drop_first());
    }
}

/// Of two slots, one goes before the other, and going before carries over a
/// slot in between.
pub proof fn goes_before_is_an_order(a: SlotView, b: SlotView, c: SlotView)
    ensures
        goes_before(a, b) || goes_before(b, a),
        goes_before(a, b) && goes_before(b, c) ==> goes_before(a, c),
{
    name_le_is_total(a.identifier, b.identifier);
    if goes_before(a, b) && goes_before(b, c) && a.last_modified == b.last_modified
        && b.last_modified == c.last_modified {
        name_le_is_transitive(a.identifier, b.identifier, c.identifier);
    }
}

/// The insert position lies behind the slots that go before `slot` and on
/// the first that does not.
proof fn insert_position_splits(listed: Seq<SlotView>, slot: SlotView)
    ensures
        0 <= insert_position(listed, slot) <= listed.len(),
        forall|k: int|
            0 <= k < insert_position(listed, slot) ==> goes_before(#[trigger] listed[k], slot),
        insert_position(listed, slot) < listed.len() ==> !goes_before(
            listed[insert_position(listed, slot)],
            slot,
        ),
    decreases listed.len(),
{
    let at = insert_position(listed, slot);
    if listed.len() > 0 && goes_before(listed[0], slot) {
        let rest = listed.drop_first();
        insert_position_splits(rest, slot);
        assert forall|k: int| 0 <= k < at implies goes_before(#[trigger] listed[k], slot) by {
            if k > 0 {
                assert(rest[k - 1] == listed[k]);
            }
        }
        if at < listed.len() {
            assert(rest[at - 1] == listed[at]);
        }
    }
}

/// Putting a slot at its insert position keeps a listing in order.
proof fn insert_keeps_order(listed: Seq<SlotView>, slot: SlotView)
    requires
        in_order(listed),
    ensures
        0 <= insert_position(listed, slot) <= listed.len(),
        in_order(listed.insert(insert_position(listed, slot), slot)),
{
    let at = insert_position(listed, slot);
    let grown = listed.insert(at, slot);
    insert_position_splits(listed, slot);
    assert forall|k: int| at <= k < listed.len() implies goes_before(
        slot,
        #[trigger] listed[k],
    ) by {
        goes_before_is_an_order(slot, listed[at], listed[k]);
        goes_before_is_an_order(listed[at], slot, listed[k]);
        if k > at {
            assert(goes_before(listed[at], listed[k]));
        }
    }
    assert forall|i: int, j: int| 0 <= i < j < grown.len() implies goes_before(
        grown[i],
        grown[j],
    ) by {
        if i == at {
            assert(grown[j] == listed[j - 1]);
        } else if j == at {
            assert(grown[i] == listed[i]);
        } else {
            let old_i = if i < at {
                i
            } else {
                i - 1
            };
            let old_j = if j < at {
                j
            } else {
                j - 1
            };
            assert(grown[i] == listed[old_i]);
            assert(grown[j] == listed[old_j]);
        }
    }
}

/// A listing is in order: by modification time, most recent first, and
/// among slots of one age by identifier.
pub proof fn listing_is_in_order(entries: Seq<EntryView>)
    ensures
        in_order(listing(entries)),
        newest_first(listing(entries)),
    decreases entries.len(),
{
    if entries.len() > 0 {
        listing_is_in_order(entries.drop_last());
        if is_shown(entries.last()) {
            insert_keeps_order(listing(entries.drop_last()), slot_of(entries.last()));
        }
    }
    let listed = listing(entries);
    assert forall|i: int, j: int| 0 <= i < j < listed.len() implies listed[i].last_modified
        >= listed[j].last_modified by {
        assert(goes_before(listed[i], listed[j]));
    }
}

/// A listing holds the slots that the directory shows, each as often as the
/// directory does, and nothing else.
pub proof fn listing_holds_the_slots(entries: Seq<EntryView>)
    ensures
        listing(entries).to_multiset() == slot_entries(entries).to_multiset(),
    decreases entries.len(),
{
    broadcast use vstd::seq_lib::group_to_multiset_ensures;

    reveal(Seq::filter);
    if entries.len() == 0 {
        assert(slot_entries(entries) =~= Seq::<SlotView>::empty());
    } else {
        let front = entries.drop_last();
        listing_holds_the_slots(front);
        if is_shown(entries.last()) {
            let before = listing(front);
            let slot = slot_of(entries.last());
            listing_is_in_order(front);
            insert_keeps_order(before, slot);
            let at = insert_position(before, slot);
            let after = before.insert(at, slot);
            assert(after.remove(at) =~= before);
            assert(after[at] == slot);
            assert(after.to_multiset() =~= before.to_multiset().insert(slot));
            assert(slot_entries(entries) =~= slot_entries(front).push(slot));
        } else {
            assert(slot_entries(entries) =~= slot_entries(front));
        }
    }
}

/// Whether `slot` is what some shown entry among `entries` stands for.
pub open spec fn comes_from(entries: Seq<EntryView>, slot: SlotView) -> bool {
    exists|k: int|
        0 <= k < entries.len() && is_shown(#[trigger] entries[k]) && slot
            == slot_of(entries[k])
}

/// Whether `slot` stands somewhere in `listed`.
pub open spec fn is_listed(listed: Seq<SlotView>, slot: SlotView) -> bool {
    exists|i: int| 0 <= i < listed.len() && #[trigger] listed[i] == slot
}

/// Every listed slot stands for a slot file of the directory whose time is
/// known, and every such file is listed.
pub proof fn listing_matches_directory(entries: Seq<EntryView>)
    ensures
        forall|i: int|
            0 <= i < listing(entries).len() ==> comes_from(
                entries,
                #[trigger] listing(entries)[i],
            ),
        forall|k: int|
            0 <= k < entries.len() && is_shown(#[trigger] entries[k]) ==> is_listed(
                listing(entries),
                slot_of(entries[k]),
            ),
    decreases entries.len(),
{
    if entries.len() > 0 {
        let front = entries.drop_last();
        let last = entries.last();
        let before = listing(front);
        let after = listing(entries);
        listing_matches_directory(front);
        listing_is_in_order(front);
        insert_keeps_order(before, slot_of(last));
        let at = insert_position(before, slot_of(last));
        let grown = is_shown(last);
        assert forall|i: int| 0 <= i < after.len() implies comes_from(
            entries,
            #[trigger] after[i],
        ) by {
            if grown && i == at {
                assert(entries[entries.len() - 1] == last);
            } else {
                let old_i = if grown && i > at {
                    i - 1
                } else {
                    i
                };
                assert(after[i] == before[old_i]);
                assert(comes_from(front, before[old_i]));
                let k = choose|k: int|
                    0 <= k < front.len() && is_shown(#[trigger] front[k])
                        && before[old_i] == slot_of(front[k]);
                assert(entries[k] == front[k]);
            }
        }
        assert forall|k: int|
            0 <= k < entries.len() && is_shown(#[trigger] entries[k]) implies is_listed(after, slot_of(entries[k])) by {
            if k == entries.len() - 1 {
                assert(after[at] == slot_of(entries[k]));
            } else {
                assert(front[k] == entries[k]);
                assert(is_listed(before, slot_of(front[k])));
                let i = choose|i: int|
                    0 <= i < before.len() && #[trigger] before[i] == slot_of(front[k]);
                let new_i = if grown && i >= at {
                    i + 1
                } else {
                    i
                };
                assert(after[new_i] == before[i]);
            }
        }
    }
}

/// A slot that was modified after every other slot of the directory stands
/// first in the listing.
pub proof fn newest_slot_is_listed_first(entries: Seq<EntryView>, newest: int)
    requires
        0 <= newest < entries.len(),
        is_shown(entries[newest]),
        forall|j: int|
            0 <= j < entries.len() && j != newest && is_shown(#[trigger] entries[j])
                ==> entries[j].modified->0 < entries[newest].modified->0,
    ensures
        listing(entries).len() > 0,
        listing(entries)[0] == slot_of(entries[newest]),
{
    let listed = listing(entries);
    listing_matches_directory(entries);
    listing_is_in_order(entries);
    assert(is_listed(listed, slot_of(entries[newest])));
    let i = choose|i: int|
        0 <= i < listed.len() && #[trigger] listed[i] == slot_of(entries[newest]);
    assert(comes_from(entries, listed[0]));
    let j = choose|j: int|
        0 <= j < entries.len() && is_shown(#[trigger] entries[j]) && listed[0]
            == slot_of(entries[j]);
    if j != newest {
        assert(entries[j].modified->0 < entries[newest].modified->0);
        assert(i > 0);
        assert(listed[0].last_modified >= listed[i].last_modified);
    }
}

/// Two names of which each is the other or stands before it are one name.
pub proof fn name_le_is_antisymmetric(a: Seq<char>, b: Seq<char>)
    requires
        name_le(a, b),
        name_le(b, a),
    ensures
        a == b,
    decreases a.len(),
{
    if a.len() > 0 {
        name_le_is_antisymmetric(a.drop_first(), b.drop_first());
        assert forall|i: int| 0 <= i < a.len() implies a[i] == b[i] by {
            if i > 0 {
                assert(a.drop_first()[i - 1] == a[i]);
                assert(b.drop_first()[i - 1] == b[i]);
            }
        }
        assert(a.len() == a.drop_first().len() + 1);
        assert(b.len() == b.drop_first().len() + 1);
    }
    assert(a =~= b);
}

/// Every listed slot is stored under the file name of its identifier.
pub proof fn listed_slots_are_well_formed(entries: Seq<EntryView>)
    ensures
        forall|i: int|
            0 <= i < listing(entries).len() ==> (#[trigger] listing(
                entries,
            )[i]).well_formed(),
{
    listing_matches_directory(entries);
    assert forall|i: int| 0 <= i < listing(entries).len() implies (#[trigger] listing(
        entries,
    )[i]).well_formed() by {
        assert(comes_from(entries, listing(entries)[i]));
    }
}

/// The order of two slots is decided by the slots alone: where two listings
/// both show two slots of different files, they show them in the same
/// order, whatever else either directory holds.
pub proof fn shared_slots_keep_their_order(
    first: Seq<EntryView>,
    second: Seq<EntryView>,
    i: int,
    j: int,
    k: int,
    l: int,
)
    requires
        0 <= i < j < listing(first).len(),
        0 <= k < listing(second).len(),
        0 <= l < listing(second).len(),
        listing(first)[i] == listing(second)[k],
        listing(first)[j] == listing(second)[l],
        listing(first)[i].storage_path != listing(first)[j].storage_path,
    ensures
        k < l,
{
    let a = listing(first)[i];
    let b = listing(first)[j];
    listing_is_in_order(first);
    listing_is_in_order(second);
    listed_slots_are_well_formed(first);
    assert(goes_before(a, b));
    if k > l {
        assert(goes_before(listing(second)[l], listing(second)[k]));
        name_le_is_antisymmetric(a.identifier, b.identifier);
        names_and_identifiers_agree(a.storage_path);
        names_and_identifiers_agree(b.storage_path);
    }
}

/// Whether no two entries have the same file name.
pub open spec fn distinct_names(entries: Seq<EntryView>) -> bool {
    forall|i: int, j: int|
        0 <= i < j < entries.len() ==> (#[trigger] entries[i]).file_name != (
        #[trigger] entries[j]).file_name
}

/// Where no two entries of the directory have the same file name, no two
/// listed slots have the same file or the same identifier.
pub proof fn listed_slots_are_distinct(entries: Seq<EntryView>)
    requires
        distinct_names(entries),
    ensures
        forall|i: int, j: int|
            0 <= i < j < listing(entries).len() ==> {
                &&& (#[trigger] listing(entries)[i]).storage_path != (#[trigger] listing(
                    entries,
                )[j]).storage_path
                &&& listing(entries)[i].identifier != listing(entries)[j].identifier
            },
    decreases entries.len(),
{
    let listed = listing(entries);
    listed_slots_are_well_formed(entries);
    if entries.len() > 0 {
        let front = entries.drop_last();
        let last = entries.last();
        let before = listing(front);
        assert forall|i: int, j: int| 0 <= i < j < front.len() implies (#[trigger] front[i]).file_name
            != (#[trigger] front[j]).file_name by {
            assert(front[i] == entries[i]);
            assert(front[j] == entries[j]);
        }
        listed_slots_are_distinct(front);
        listing_matches_directory(front);
        listing_is_in_order(front);
        insert_keeps_order(before, slot_of(last));
        let at = insert_position(before, slot_of(last));
        let grown = is_shown(last);
        assert forall|i: int| 0 <= i < before.len() implies (#[trigger] before[i]).storage_path
            != last.file_name by {
            assert(comes_from(front, before[i]));
            let k = choose|k: int|
                0 <= k < front.len() && is_shown(#[trigger] front[k]) && before[i]
                    == slot_of(front[k]);
            assert(front[k] == entries[k]);
            assert(entries[entries.len() - 1] == last);
        }
        assert forall|i: int, j: int| 0 <= i < j < listed.len() implies (#[trigger] listed[i]).storage_path
            != (#[trigger] listed[j]).storage_path by {
            if grown {
                let old_i = if i < at {
                    i
                } else {
                    i - 1
                };
                let old_j = if j < at {
                    j
                } else {
                    j - 1
                };
                if i == at {
                    assert(listed[j] == before[old_j]);
                } else if j == at {
                    assert(listed[i] == before[old_i]);
                } else {
                    assert(listed[i] == before[old_i]);
                    assert(listed[j] == before[old_j]);
                }
            }
        }
    }
    assert forall|i: int, j: int| 0 <= i < j < listed.len() implies (#[trigger] listed[i]).identifier
        != (#[trigger] listed[j]).identifier by {
        names_and_identifiers_agree(listed[i].storage_path);
        names_and_identifiers_agree(listed[j].storage_path);
    }
}

/// Where no two entries have the same file name, the slot that goes before
/// every other slot of the directory stands first in the listing: the most
/// recent one, or among the most recent the one whose identifier is first.
pub proof fn foremost_slot_is_listed_first(entries: Seq<EntryView>, foremost: int)
    requires
        distinct_names(entries),
        0 <= foremost < entries.len(),
        is_shown(entries[foremost]),
        forall|j: int|
            0 <= j < entries.len() && is_shown(#[trigger] entries[j])
                ==> goes_before(slot_of(entries[foremost]), slot_of(entries[j])),
    ensures
        listing(entries).len() > 0,
        listing(entries)[0] == slot_of(entries[foremost]),
{
    let listed = listing(entries);
    let slot = slot_of(entries[foremost]);
    listing_matches_directory(entries);
    listing_is_in_order(entries);
    assert(is_listed(listed, slot));
    let i = choose|i: int| 0 <= i < listed.len() && #[trigger] listed[i] == slot;
    assert(comes_from(entries, listed[0]));
    let j = choose|j: int|
        0 <= j < entries.len() && is_shown(#[trigger] entries[j]) && listed[0]
            == slot_of(entries[j]);
    if j != foremost {
        assert(goes_before(slot, listed[0]));
        assert(i > 0);
        assert(goes_before(listed[0], listed[i]));
        name_le_is_antisymmetric(slot.identifier, listed[0].identifier);
        names_and_identifiers_agree(entries[j].file_name);
        names_and_identifiers_agree(entries[foremost].file_name);
    }
}

/// The insert position is the only place that lies behind the slots that
/// go before `slot` and on one that does not.
proof fn insert_position_is_unique(listed: Seq<SlotView>, slot: SlotView, place: int)
    requires
        0 <= place <= listed.len(),
        forall|k: int| 0 <= k < place ==> goes_before(#[trigger] listed[k], slot),
        place < listed.len() ==> !goes_before(listed[place], slot),
    ensures
        insert_position(listed, slot) == place,
    decreases listed.len(),
{
    if place > 0 {
        let rest = listed.drop_first();
        assert(goes_before(listed[0], slot));
        assert forall|k: int| 0 <= k < place - 1 implies goes_before(#[trigger] rest[k], slot) by {
            assert(rest[k] == listed[k + 1]);
        }
        if place - 1 < rest.len() {
            assert(rest[place - 1] == listed[place]);
        }
        insert_position_is_unique(rest, slot, place - 1);
    }
}

/// Taking a slot out of a listing moves the insert position of another by at
/// most the one place that was taken out in front of it.
proof fn insert_position_after_removal(listed: Seq<SlotView>, slot: SlotView, gone: int)
    requires
        in_order(listed),
        0 <= gone < listed.len(),
    ensures
        insert_position(listed.remove(gone), slot) == if gone < insert_position(listed, slot) {
            insert_position(listed, slot) - 1
        } else {
            insert_position(listed, slot)
        },
{
    let at = insert_position(listed, slot);
    let shorter = listed.remove(gone);
    insert_position_splits(listed, slot);
    if gone < at {
        assert forall|k: int| 0 <= k < at - 1 implies goes_before(#[trigger] shorter[k], slot) by {
            if k < gone {
                assert(shorter[k] == listed[k]);
            } else {
                assert(shorter[k] == listed[k + 1]);
            }
        }
        if at - 1 < shorter.len() {
            assert(shorter[at - 1] == listed[at]);
        }
        insert_position_is_unique(shorter, slot, at - 1);
    } else {
        assert forall|k: int| 0 <= k < at implies goes_before(#[trigger] shorter[k], slot) by {
            assert(shorter[k] == listed[k]);
        }
        if at < shorter.len() {
            if at < gone {
                assert(shorter[at] == listed[at]);
            } else {
                assert(shorter[at] == listed[at + 1]);
                assert(goes_before(listed[at], listed[at + 1]));
                goes_before_is_an_order(listed[at], listed[at + 1], slot);
            }
        }
        insert_position_is_unique(shorter, slot, at);
    }
}

/// Whether `shorter` is `listed` with one occurrence of `slot` taken out.
pub open spec fn is_listing_without(
    listed: Seq<SlotView>,
    slot: SlotView,
    shorter: Seq<SlotView>,
) -> bool {
    exists|p: int| 0 <= p < listed.len() && #[trigger] listed[p] == slot && shorter == listed.remove(p)
}

/// When a file leaves the directory, the listing loses the slot of that
/// file and is otherwise as before: every other slot is still listed, in
/// the same place relative to the others. A file that is no slot leaves no
/// trace.
pub proof fn removing_an_entry_removes_its_slot(entries: Seq<EntryView>, gone: int)
    requires
        0 <= gone < entries.len(),
    ensures
        !is_shown(entries[gone]) ==> listing(entries.remove(gone)) == listing(
            entries,
        ),
        is_shown(entries[gone]) ==> is_listing_without(
            listing(entries),
            slot_of(entries[gone]),
            listing(entries.remove(gone)),
        ),
    decreases entries.len(),
{
    let front = entries.drop_last();
    let last = entries.last();
    let before = listing(front);
    let listed = listing(entries);
    let rest = entries.remove(gone);
    let slot = slot_of(last);
    let at = insert_position(before, slot);
    listing_is_in_order(front);
    insert_keeps_order(before, slot);
    if gone == entries.len() - 1 {
        assert(rest =~= front);
        if is_shown(last) {
            assert(listed[at] == slot);
            assert(listed.remove(at) =~= before);
        }
    } else {
        assert(rest.drop_last() =~= front.remove(gone));
        assert(rest.last() == last);
        assert(front[gone] == entries[gone]);
        removing_an_entry_removes_its_slot(front, gone);
        if is_shown(entries[gone]) {
            let left = slot_of(entries[gone]);
            let shorter = listing(front.remove(gone));
            let p = choose|p: int|
                0 <= p < before.len() && #[trigger] before[p] == left && shorter == before.remove(p);
            if is_shown(last) {
                insert_position_after_removal(before, slot, p);
                let new_at = insert_position(shorter, slot);
                let new_p = if p < at {
                    p
                } else {
                    p + 1
                };
                assert(listed[new_p] == left);
                assert(shorter.insert(new_at, slot) =~= listed.remove(new_p));
            } else {
                assert(listed[p] == left);
            }
        }
    }
}

/// File names and identifiers stand for each other: a non-empty identifier
/// is stored as a slot file that names it again, and a slot file is stored
/// under the name of its own identifier.
pub proof fn names_and_identifiers_agree(text: Seq<char>)
    ensures
        text.len() > 0 ==> is_slot_file(file_name_of(text)) && identifier_of(file_name_of(text))
            == text,
        is_slot_file(text) ==> file_name_of(identifier_of(text)) == text && identifier_of(
            text,
        ).len() > 0,
{
    let stored = file_name_of(text);
    assert(stored.subrange(stored.len() - SUFFIX_LEN as int, stored.len() as int)
        =~= slot_suffix());
    assert(identifier_of(stored) =~= text);
    if is_slot_file(text) {
        assert(file_name_of(identifier_of(text)) =~= text);
    }
}

} // verus!
