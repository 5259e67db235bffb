//! Followed channels: which channels are followed, and which of their videos were seen.

use std::collections::hash_map::DefaultHasher;
use std::hash::{Hash, Hasher};
use std::time::{Duration, SystemTime, SystemTimeError, UNIX_EPOCH};

use vstd::prelude::*;
use vstd::std_specs::hash::DefaultHasherAdditionalSpecFns;

use crate::duplicate::Duplicate;
use crate::order::{has_text, is_arrangement, stable_order};
use crate::strmap::{keys_ascend, keys_of, map_of, pair_is_found, StrMap};
use crate::text::{hex, hex_text, hex_value, is_hex_digit, join, trimmed};
use crate::text::{hex_text_has_hex_digits, hex_text_is_injective, hex_text_is_read_back};
use crate::text::hex_text_len;
use crate::text::{trimmed_ignores_outer_space, trimmed_is_idempotent};

verus! {

/// The name of the file that the followed channels are kept in.
pub const CHANNELS_FILE: &'static str = "channels.json";

/// How many video ids a channel remembers at most.
pub const MAX_SEEN_IDS: usize = 500;

/// The shortest time between two polls of a channel, in minutes.
pub const MIN_INTERVAL_MINUTES: u32 = 5;

// ---------------------------------------------------------------------------------------------
// Defaults
// ---------------------------------------------------------------------------------------------

/// Whether a channel is polled, unless it says otherwise.
pub fn default_true() -> (r: bool)
    ensures
        r,
{
    true
}

/// The time between two polls of a channel in minutes, unless the channel says otherwise.
pub fn default_interval() -> (r: u32)
    ensures
        r == 60,
{
    60
}

// ---------------------------------------------------------------------------------------------
// A followed channel
// ---------------------------------------------------------------------------------------------

/// A followed channel.
#[derive(Debug)]
pub struct ChannelFollow {
    pub id: String,
    pub url: String,
    pub title: String,
    pub added_at_ms: u64,
    pub last_checked_ms: Option<u64>,
    pub seen_ids: Vec<String>,
    pub enabled: bool,
    pub auto_download: bool,
    pub interval_minutes: u32,
}

/// What a [`ChannelFollow`] stands for.
#[verifier::ext_equal]
pub struct ChannelModel {
    pub id: Seq<char>,
    pub url: Seq<char>,
    pub title: Seq<char>,
    pub added_at_ms: u64,
    pub last_checked_ms: Option<u64>,
    pub seen_ids: Seq<Seq<char>>,
    pub enabled: bool,
    pub auto_download: bool,
    pub interval_minutes: u32,
}

impl DeepView for ChannelFollow {
    type V = ChannelModel;

    open spec fn deep_view(&self) -> ChannelModel {
        ChannelModel {
            id: self.id@,
            url: self.url@,
            title: self.title@,
            added_at_ms: self.added_at_ms,
            last_checked_ms: self.last_checked_ms,
            seen_ids: self.seen_ids.deep_view(),
            enabled: self.enabled,
            auto_download: self.auto_download,
            interval_minutes: self.interval_minutes,
        }
    }
}

impl Duplicate for ChannelFollow {
    fn duplicate(&self) -> (r: Self) {
        ChannelFollow {
            id: self.id.duplicate(),
            url: self.url.duplicate(),
            title: self.title.duplicate(),
            added_at_ms: self.added_at_ms,
            last_checked_ms: self.last_checked_ms,
            seen_ids: self.seen_ids.duplicate(),
            enabled: self.enabled,
            auto_download: self.auto_download,
            interval_minutes: self.interval_minutes,
        }
    }
}

impl Clone for ChannelFollow {
    fn clone(&self) -> (r: Self)
        ensures
            r.deep_view() == self.deep_view(),
    {
        self.duplicate()
    }
}

// ---------------------------------------------------------------------------------------------
// The clock
// ---------------------------------------------------------------------------------------------

/// A point in time of the system clock.
#[verifier::external_type_specification]
#[verifier::external_body]
pub struct ExSystemTime(SystemTime);

/// Why no span leads from one point in time to another.
#[verifier::external_type_specification]
#[verifier::external_body]
pub struct ExSystemTimeError(SystemTimeError);

/// `SystemTime::now`: the reading of the system clock. Nothing is claimed of it.
pub assume_specification[ SystemTime::now ]() -> SystemTime
;

/// `Duration::as_millis`: the whole milliseconds of a span. Nothing is claimed of the number:
/// a span is opaque here.
pub assume_specification[ Duration::as_millis ](d: &Duration) -> u128
;

/// `SystemTime::duration_since` with the Unix epoch: the span from the epoch to `t`, or an
/// error where `t` lies before it. Nothing is claimed of either.
#[verifier::external_body]
fn since_epoch(t: SystemTime) -> Result<Duration, SystemTimeError> {
    t.duration_since(UNIX_EPOCH)
}

/// A clock reading as a number of milliseconds: the low 64 bits of the milliseconds since the
/// epoch, and zero for a clock that stands before it.
pub fn clock_ms(since_epoch: Option<u128>) -> (r: u64)
    ensures
        match since_epoch {
            Some(n) => r as int == n % 0x1_0000_0000_0000_0000,
            None => r == 0,
        },
{
    match since_epoch {
        Some(n) => {
            assert(#[verifier::truncate] (n as u64) == n % 0x1_0000_0000_0000_0000) by (bit_vector);
            #[verifier::truncate]
            (n as u64)
        },
        None => 0,
    }
}

/// The time now, in milliseconds since the epoch. The number rests on the system clock alone.
pub fn now_ms() -> u64 {
    match since_epoch(SystemTime::now()) {
        Ok(d) => clock_ms(Some(d.as_millis())),
        Err(_) => clock_ms(None),
    }
}

// ---------------------------------------------------------------------------------------------
// Channel ids
// ---------------------------------------------------------------------------------------------

/// What hashing a text writes to a hasher.
pub uninterp spec fn text_writes(s: Seq<char>) -> Seq<Seq<u8>>;

/// `<str as Hash>::hash`: adds to what the hasher was fed something that depends on the text
/// alone.
#[verifier::external_body]
fn feed_text(hasher: &mut DefaultHasher, s: &str)
    ensures
        final(hasher)@ == old(hasher)@ + text_writes(s@),
{
    s.hash(hasher)
}

/// The hash of a text under the default hasher.
pub open spec fn text_hash(s: Seq<char>) -> u64 {
    DefaultHasher::spec_finish(text_writes(s))
}

/// The id that a hash gives.
pub open spec fn id_of(hash: u64) -> Seq<char> {
    "ch"@ + hex_text(hash as nat, 16)
}

/// The id of the channel at an address: it depends on the address without surrounding white
/// space.
pub open spec fn channel_id(url: Seq<char>) -> Seq<char> {
    id_of(text_hash(trimmed(url)))
}

/// The id that a hash gives: `ch` and the sixteen hexadecimal digits of the hash.
pub fn id_for_hash(hash: u64) -> (r: String)
    ensures
        r@ == id_of(hash),
{
    let digits = hex(hash, 16);
    join("ch", digits.as_str())
}

/// The id of the channel at an address.
pub fn id_for_url(url: &str) -> (r: String)
    ensures
        r@ == channel_id(url@),
{
    let mut hasher = DefaultHasher::new();
    feed_text(&mut hasher, url.trim());
    proof {
        let w = text_writes(trimmed(url@));
        assert(Seq::<Seq<u8>>::empty() + w =~= w);
    }
    id_for_hash(hasher.finish())
}

// ---------------------------------------------------------------------------------------------
// The store
// ---------------------------------------------------------------------------------------------

/// Every channel is filed under its own id.
pub open spec fn filed_by_id(m: Map<Seq<char>, ChannelModel>) -> bool {
    forall|k: Seq<char>| #[trigger] m.contains_key(k) ==> m[k].id == k
}

/// The followed channels, by id.
pub struct ChannelStore {
    channels: StrMap<ChannelFollow>,
}

impl ChannelStore {
    #[verifier::type_invariant]
    spec fn well_filed(self) -> bool {
        filed_by_id(self.channels.deep_view())
    }
}

impl DeepView for ChannelStore {
    type V = Map<Seq<char>, ChannelModel>;

    closed spec fn deep_view(&self) -> Map<Seq<char>, ChannelModel> {
        self.channels.deep_view()
    }
}

/// `s` holds every channel of `m`, each once.
pub open spec fn holds_all(m: Map<Seq<char>, ChannelModel>, s: Seq<ChannelModel>) -> bool {
    &&& forall|i: int|
        0 <= i < s.len() ==> m.contains_key((#[trigger] s[i]).id) && m[s[i].id] == s[i]
    &&& forall|i: int, j: int|
        #![trigger s[i], s[j]]
        0 <= i < j < s.len() ==> s[i].id != s[j].id
    &&& forall|k: Seq<char>| #[trigger]
        m.contains_key(k) ==> exists|i: int| 0 <= i < s.len() && (#[trigger] s[i]).id == k
}

/// Channels stand in the order in which they were added.
pub open spec fn in_order_added(s: Seq<ChannelModel>) -> bool {
    forall|i: int, j: int|
        #![trigger s[i], s[j]]
        0 <= i <= j < s.len() ==> s[i].added_at_ms <= s[j].added_at_ms
}

/// The store that channels read in turn give: of two with the same id the later one stays.
pub open spec fn loaded(s: Seq<ChannelModel>) -> Map<Seq<char>, ChannelModel>
    decreases s.len(),
{
    if s.len() == 0 {
        Map::empty()
    } else {
        loaded(s.drop_last()).insert(s.last().id, s.last())
    }
}

proof fn lemma_loaded_filed_by_id(s: Seq<ChannelModel>)
    ensures
        filed_by_id(loaded(s)),
    decreases s.len(),
{
    if s.len() > 0 {
        lemma_loaded_filed_by_id(s.drop_last());
    }
}

/// A store that follows nothing.
pub fn store() -> (r: ChannelStore)
    ensures
        r.deep_view() == Map::<Seq<char>, ChannelModel>::empty(),
{
    ChannelStore { channels: StrMap::new() }
}

/// Makes the store hold the channels read from a file, and no others.
pub fn restore(store: &mut ChannelStore, channels: Vec<ChannelFollow>)
    ensures
        final(store).deep_view() == loaded(channels.deep_view()),
        filed_by_id(final(store).deep_view()),
{
    let n = channels.len();
    let mut m: StrMap<ChannelFollow> = StrMap::new();
    let mut i: usize = 0;
    let ghost all = channels.deep_view();
    assert(all.take(0) =~= seq![]);
    while i < n
        invariant
            n == channels@.len(),
            all == channels.deep_view(),
            i <= n,
            m.deep_view() == loaded(all.take(i as int)),
        decreases n - i,
    {
        let ch = channels[i].duplicate();
        m.insert(ch.id.duplicate(), ch);
        proof {
            let next = all.take(i + 1);
            assert(next.drop_last() =~= all.take(i as int));
            assert(next.last() == ch.deep_view());
        }
        i += 1;
    }
    proof {
        assert(all.take(n as int) =~= all);
        lemma_loaded_filed_by_id(all);
    }
    store.channels = m;
}

/// Every channel of the store, in no particular order: what goes into a file.
pub fn snapshot(store: &ChannelStore) -> (r: Vec<ChannelFollow>)
    ensures
        holds_all(store.deep_view(), r.deep_view()),
        filed_by_id(store.deep_view()),
{
    proof {
        use_type_invariant(store);
    }
    let n = store.channels.len();
    let ghost pairs = store.channels.pairs();
    let mut r: Vec<ChannelFollow> = Vec::new();
    let mut i: usize = 0;
    while i < n
        invariant
            n == pairs.len(),
            pairs == store.channels.pairs(),
            i <= n,
            r.deep_view() == Seq::new(i as nat, |k: int| pairs[k].1),
        decreases n - i,
    {
        let ghost done = r.deep_view();
        let (_, ch) = store.channels.entry(i);
        let copy = ch.duplicate();
        r.push(copy);
        assert(r.deep_view() =~= done.push(copy.deep_view()));
        assert(r.deep_view() =~= Seq::new((i + 1) as nat, |k: int| pairs[k].1));
        i += 1;
    }
    proof {
        lemma_values_hold_all(pairs);
        assert(r.deep_view() =~= Seq::new(pairs.len(), |k: int| pairs[k].1));
    }
    r
}

proof fn lemma_values_hold_all(pairs: Seq<(Seq<char>, ChannelModel)>)
    requires
        keys_ascend(keys_of(pairs)),
        filed_by_id(map_of(pairs)),
    ensures
        holds_all(map_of(pairs), Seq::new(pairs.len(), |k: int| pairs[k].1)),
{
    let s = Seq::new(pairs.len(), |k: int| pairs[k].1);
    let m = map_of(pairs);
    assert forall|i: int| 0 <= i < s.len() implies m.contains_key((#[trigger] s[i]).id)
        && m[s[i].id] == s[i] by {
        pair_is_found(pairs, i);
    }
    assert forall|i: int, j: int|
        #![trigger s[i], s[j]]
        0 <= i < j < s.len() implies s[i].id != s[j].id by {
        pair_is_found(pairs, i);
        pair_is_found(pairs, j);
        assert(keys_of(pairs)[i] != keys_of(pairs)[j]);
    }
    assert forall|k: Seq<char>| #[trigger] m.contains_key(k) implies exists|i: int|
        0 <= i < s.len() && (#[trigger] s[i]).id == k by {
        let i = keys_of(pairs).index_of(k);
        assert(keys_of(pairs).contains(k));
        assert(keys_of(pairs)[i] == k);
        pair_is_found(pairs, i);
        assert(s[i].id == k);
    }
}

/// Every channel of the store, in the order in which they were added. The order of channels
/// that were added in the same millisecond is open.
pub fn list(store: &ChannelStore) -> (r: Vec<ChannelFollow>)
    ensures
        holds_all(store.deep_view(), r.deep_view()),
        in_order_added(r.deep_view()),
{
    let all = snapshot(store);
    let n = all.len();
    let ghost whole = all.deep_view();
    let mut keys: Vec<u64> = Vec::new();
    let mut i: usize = 0;
    while i < n
        invariant
            n == all@.len(),
            whole == all.deep_view(),
            i <= n,
            keys@.len() == i,
            forall|k: int| 0 <= k < i ==> #[trigger] keys@[k] == whole[k].added_at_ms,
        decreases n - i,
    {
        keys.push(all[i].added_at_ms);
        i += 1;
    }
    let p = stable_order(&keys);
    let mut r: Vec<ChannelFollow> = Vec::new();
    i = 0;
    while i < n
        invariant
            n == all@.len(),
            whole == all.deep_view(),
            n == p@.len(),
            is_arrangement(p@, n as nat),
            i <= n,
            r.deep_view() == Seq::new(i as nat, |k: int| whole[p@[k] as int]),
        decreases n - i,
    {
        let ghost done = r.deep_view();
        assert(p@[i as int] < n);
        let copy = all[p[i]].duplicate();
        r.push(copy);
        assert(r.deep_view() =~= done.push(copy.deep_view()));
        assert(r.deep_view() =~= Seq::new((i + 1) as nat, |k: int| whole[p@[k] as int]));
        i += 1;
    }
    proof {
        let s = r.deep_view();
        let m = store.deep_view();
        assert forall|i: int| 0 <= i < s.len() implies m.contains_key((#[trigger] s[i]).id)
            && m[s[i].id] == s[i] by {
            assert(p@[i] < n);
            assert(whole[p@[i] as int] == s[i]);
        }
        assert forall|i: int, j: int|
            #![trigger s[i], s[j]]
            0 <= i < j < s.len() implies s[i].id != s[j].id by {
            assert(p@[i] < n && p@[j] < n && p@[i] != p@[j]);
            assert(whole[p@[i] as int].id != whole[p@[j] as int].id);
        }
        assert forall|k: Seq<char>| #[trigger] m.contains_key(k) implies exists|i: int|
            0 <= i < s.len() && (#[trigger] s[i]).id == k by {
            let a = choose|a: int| 0 <= a < whole.len() && (#[trigger] whole[a]).id == k;
            assert(p@.contains(a as usize));
            let i = choose|i: int| 0 <= i < p@.len() && p@[i] == a as usize;
            assert(s[i].id == k);
        }
        assert forall|i: int, j: int|
            #![trigger s[i], s[j]]
            0 <= i <= j < s.len() implies s[i].added_at_ms <= s[j].added_at_ms by {
            assert(p@[i] < n && p@[j] < n);
            assert(keys@[p@[i] as int] == s[i].added_at_ms);
            assert(keys@[p@[j] as int] == s[j].added_at_ms);
        }
    }
    r
}

/// The channel with an id.
pub fn get(store: &ChannelStore, id: &str) -> (r: Option<ChannelFollow>)
    ensures
        match r {
            Some(ch) => store.deep_view().contains_key(id@) && ch.deep_view()
                == store.deep_view()[id@],
            None => !store.deep_view().contains_key(id@),
        },
{
    match store.channels.get(id) {
        Some(ch) => Some(ch.duplicate()),
        None => None,
    }
}

// ---------------------------------------------------------------------------------------------
// Following a channel
// ---------------------------------------------------------------------------------------------

/// A channel as it is when it is first followed.
pub open spec fn fresh_channel(
    id: Seq<char>,
    url: Seq<char>,
    title: Seq<char>,
    now: u64,
) -> ChannelModel {
    ChannelModel {
        id,
        url: trimmed(url),
        title,
        added_at_ms: now,
        last_checked_ms: None,
        seen_ids: seq![],
        enabled: true,
        auto_download: false,
        interval_minutes: 60,
    }
}

/// The channel that following an address leads to: the one already there, or a fresh one; a
/// title that is not empty takes the place of the title it had.
pub open spec fn followed(
    m: Map<Seq<char>, ChannelModel>,
    id: Seq<char>,
    url: Seq<char>,
    title: Seq<char>,
    now: u64,
) -> ChannelModel {
    let base = if m.contains_key(id) {
        m[id]
    } else {
        fresh_channel(id, url, title, now)
    };
    if title.len() > 0 {
        ChannelModel { title, ..base }
    } else {
        base
    }
}

/// Follows the channel at `url`, filed under `id`, at the time `now`.
pub fn add_under(
    store: &mut ChannelStore,
    id: String,
    url: String,
    title: String,
    now: u64,
) -> (r: ChannelFollow)
    ensures
        r.deep_view() == followed(old(store).deep_view(), id@, url@, title@, now),
        final(store).deep_view() == old(store).deep_view().insert(id@, r.deep_view()),
        filed_by_id(final(store).deep_view()),
{
    proof {
        use_type_invariant(&*store);
    }
    let mut m: StrMap<ChannelFollow> = StrMap::new();
    std::mem::swap(&mut m, &mut store.channels);
    let ghost before = m.deep_view();
    let has_title = !title.as_str().is_empty();
    let mut entry = match m.remove(id.as_str()) {
        Some(ch) => ch,
        None => ChannelFollow {
            id: id.duplicate(),
            url: url.as_str().trim().to_owned(),
            title: title.duplicate(),
            added_at_ms: now,
            last_checked_ms: None,
            seen_ids: Vec::new(),
            enabled: true,
            auto_download: false,
            interval_minutes: default_interval(),
        },
    };
    proof {
        if !before.contains_key(id@) {
            assert(entry.deep_view() =~= fresh_channel(id@, url@, title@, now));
        }
    }
    if has_title {
        entry.title = title;
    }
    let r = entry.duplicate();
    m.insert(id, entry);
    proof {
        assert(m.deep_view() =~= before.insert(id@, r.deep_view()));
    }
    store.channels = m;
    r
}

/// Follows the channel at `url`, now.
pub fn add(store: &mut ChannelStore, url: String, title: String) -> (r: ChannelFollow)
    ensures
        exists|now: u64|
            r.deep_view() == #[trigger] followed(
                old(store).deep_view(),
                channel_id(url@),
                url@,
                title@,
                now,
            ),
        final(store).deep_view() == old(store).deep_view().insert(channel_id(url@), r.deep_view()),
        filed_by_id(final(store).deep_view()),
{
    let id = id_for_url(url.as_str());
    add_under(store, id, url, title, now_ms())
}

/// Stops following a channel; the result tells whether it was followed.
pub fn remove(store: &mut ChannelStore, id: &str) -> (r: bool)
    ensures
        r == old(store).deep_view().contains_key(id@),
        final(store).deep_view() == old(store).deep_view().remove(id@),
        filed_by_id(final(store).deep_view()),
{
    proof {
        use_type_invariant(&*store);
    }
    let mut m: StrMap<ChannelFollow> = StrMap::new();
    std::mem::swap(&mut m, &mut store.channels);
    let gone = m.remove(id);
    store.channels = m;
    gone.is_some()
}

// ---------------------------------------------------------------------------------------------
// Changing a channel
// ---------------------------------------------------------------------------------------------

/// A channel with new settings, as far as they are given; an interval is never under the
/// shortest one.
pub open spec fn with_settings(
    ch: ChannelModel,
    enabled: Option<bool>,
    auto_download: Option<bool>,
    interval_minutes: Option<u32>,
) -> ChannelModel {
    ChannelModel {
        enabled: match enabled {
            Some(v) => v,
            None => ch.enabled,
        },
        auto_download: match auto_download {
            Some(v) => v,
            None => ch.auto_download,
        },
        interval_minutes: match interval_minutes {
            Some(v) => if v < MIN_INTERVAL_MINUTES {
                MIN_INTERVAL_MINUTES
            } else {
                v
            },
            None => ch.interval_minutes,
        },
        ..ch
    }
}

/// Changes the settings of a channel, as far as they are given.
pub fn update(
    store: &mut ChannelStore,
    id: &str,
    enabled: Option<bool>,
    auto_download: Option<bool>,
    interval_minutes: Option<u32>,
) -> (r: Option<ChannelFollow>)
    ensures
        filed_by_id(final(store).deep_view()),
        match r {
            Some(ch) => {
                &&& old(store).deep_view().contains_key(id@)
                &&& ch.deep_view() == with_settings(
                    old(store).deep_view()[id@],
                    enabled,
                    auto_download,
                    interval_minutes,
                )
                &&& enabled matches Some(v) ==> ch.enabled == v
                &&& auto_download matches Some(v) ==> ch.auto_download == v
                &&& interval_minutes matches Some(v) ==> ch.interval_minutes == if v < 5 {
                    5
                } else {
                    v
                }
                &&& final(store).deep_view() == old(store).deep_view().insert(id@, ch.deep_view())
            },
            None => {
                &&& !old(store).deep_view().contains_key(id@)
                &&& final(store).deep_view() == old(store).deep_view()
            },
        },
{
    proof {
        use_type_invariant(&*store);
    }
    let mut m: StrMap<ChannelFollow> = StrMap::new();
    std::mem::swap(&mut m, &mut store.channels);
    let ghost before = m.deep_view();
    match m.remove(id) {
        None => {
            assert(m.deep_view() =~= before);
            store.channels = m;
            None
        },
        Some(found) => {
            let mut ch = found;
            if let Some(v) = enabled {
                ch.enabled = v;
            }
            if let Some(v) = auto_download {
                ch.auto_download = v;
            }
            if let Some(v) = interval_minutes {
                ch.interval_minutes = if v < MIN_INTERVAL_MINUTES {
                    MIN_INTERVAL_MINUTES
                } else {
                    v
                };
            }
            let r = ch.duplicate();
            m.insert(id.to_owned(), ch);
            assert(m.deep_view() =~= before.insert(id@, r.deep_view()));
            store.channels = m;
            Some(r)
        },
    }
}

// ---------------------------------------------------------------------------------------------
// Polling a channel
// ---------------------------------------------------------------------------------------------

/// The ids seen after a poll, before any is forgotten: each fetched id that was not there yet
/// is put at the end.
pub open spec fn absorbed(seen: Seq<Seq<char>>, fetched: Seq<Seq<char>>) -> Seq<Seq<char>>
    decreases fetched.len(),
{
    if fetched.len() == 0 {
        seen
    } else {
        let before = absorbed(seen, fetched.drop_last());
        if before.contains(fetched.last()) {
            before
        } else {
            before.push(fetched.last())
        }
    }
}

/// The last `limit` elements of `s`, or all where there are no more.
pub open spec fn newest<A>(s: Seq<A>, limit: nat) -> Seq<A> {
    if s.len() > limit {
        s.skip(s.len() - limit)
    } else {
        s
    }
}

/// The channel after a poll at the time `now`.
pub open spec fn polled(ch: ChannelModel, fetched: Seq<Seq<char>>, now: u64) -> ChannelModel {
    ChannelModel {
        last_checked_ms: Some(now),
        seen_ids: newest(absorbed(ch.seen_ids, fetched), MAX_SEEN_IDS as nat),
        ..ch
    }
}

/// The fetched ids that a poll reports as new: those not seen before. A channel that has seen
/// nothing yet reports nothing: its first poll sets the baseline.
pub open spec fn reported(seen: Seq<Seq<char>>, fetched: Seq<Seq<char>>) -> Seq<Seq<char>> {
    if seen.len() == 0 {
        seq![]
    } else {
        fetched.filter(|id: Seq<char>| !seen.contains(id))
    }
}

/// The fetched ids that are not among the seen ones, in order.
fn unseen(seen: &Vec<String>, fetched: &[String]) -> (r: Vec<String>)
    ensures
        r.deep_view() == fetched.deep_view().filter(
            |id: Seq<char>| !seen.deep_view().contains(id),
        ),
{
    let n = fetched.len();
    let ghost pred = |id: Seq<char>| !seen.deep_view().contains(id);
    let ghost all = fetched.deep_view();
    let mut r: Vec<String> = Vec::new();
    let mut i: usize = 0;
    proof {
        reveal(Seq::filter);
        assert(r.deep_view() =~= all.take(0).filter(pred));
    }
    while i < n
        invariant
            n == fetched@.len(),
            all == fetched.deep_view(),
            pred == (|id: Seq<char>| !seen.deep_view().contains(id)),
            i <= n,
            r.deep_view() == all.take(i as int).filter(pred),
        decreases n - i,
    {
        let ghost done = r.deep_view();
        proof {
            reveal(Seq::filter);
            assert(all.take(i + 1).drop_last() =~= all.take(i as int));
            assert(all.take(i + 1).last() == fetched@[i as int]@);
        }
        if !has_text(seen.as_slice(), fetched[i].as_str()) {
            let id = fetched[i].duplicate();
            r.push(id);
            assert(r.deep_view() =~= done.push(id@));
        }
        i += 1;
    }
    assert(all.take(n as int) =~= all);
    r
}

/// Puts each fetched id that is not there yet at the end of the seen ones.
fn absorb(seen: Vec<String>, fetched: &[String]) -> (r: Vec<String>)
    ensures
        r.deep_view() == absorbed(seen.deep_view(), fetched.deep_view()),
{
    let n = fetched.len();
    let ghost all = fetched.deep_view();
    let ghost start = seen.deep_view();
    let mut r = seen;
    let mut i: usize = 0;
    assert(all.take(0) =~= seq![]);
    while i < n
        invariant
            n == fetched@.len(),
            all == fetched.deep_view(),
            i <= n,
            r.deep_view() == absorbed(start, all.take(i as int)),
        decreases n - i,
    {
        let ghost done = r.deep_view();
        proof {
            assert(all.take(i + 1).drop_last() =~= all.take(i as int));
            assert(all.take(i + 1).last() == fetched@[i as int]@);
        }
        if !has_text(r.as_slice(), fetched[i].as_str()) {
            let id = fetched[i].duplicate();
            r.push(id);
            assert(r.deep_view() =~= done.push(id@));
        }
        i += 1;
    }
    assert(all.take(n as int) =~= all);
    r
}

/// Keeps the last ids, as many as a channel remembers.
fn forget_oldest(seen: Vec<String>) -> (r: Vec<String>)
    ensures
        r.deep_view() == newest(seen.deep_view(), MAX_SEEN_IDS as nat),
{
    let mut seen = seen;
    let n = seen.len();
    if n > MAX_SEEN_IDS {
        let ghost all = seen.deep_view();
        let r = seen.split_off(n - MAX_SEEN_IDS);
        assert(r.deep_view() =~= all.skip(n - MAX_SEEN_IDS));
        r
    } else {
        seen
    }
}

/// Records the outcome of a poll at the time `now`: the channel has seen the fetched ids. The
/// result is the ids that are new.
pub fn record_poll_at(
    store: &mut ChannelStore,
    id: &str,
    fetched_ids: &[String],
    now: u64,
) -> (r: Vec<String>)
    ensures
        filed_by_id(final(store).deep_view()),
        old(store).deep_view().contains_key(id@) ==> {
            &&& final(store).deep_view() == old(store).deep_view().insert(
                id@,
                polled(old(store).deep_view()[id@], fetched_ids.deep_view(), now),
            )
            &&& r.deep_view() == reported(
                old(store).deep_view()[id@].seen_ids,
                fetched_ids.deep_view(),
            )
        },
        !old(store).deep_view().contains_key(id@) ==> {
            &&& final(store).deep_view() == old(store).deep_view()
            &&& r@.len() == 0
        },
{
    proof {
        use_type_invariant(&*store);
    }
    let mut m: StrMap<ChannelFollow> = StrMap::new();
    std::mem::swap(&mut m, &mut store.channels);
    let ghost before = m.deep_view();
    match m.remove(id) {
        None => {
            assert(m.deep_view() =~= before);
            store.channels = m;
            Vec::new()
        },
        Some(found) => {
            let ghost was = found.deep_view();
            let first_poll = found.seen_ids.is_empty();
            let new_ids = if first_poll {
                Vec::new()
            } else {
                unseen(&found.seen_ids, fetched_ids)
            };
            let ChannelFollow {
                id: own_id,
                url,
                title,
                added_at_ms,
                last_checked_ms: _,
                seen_ids,
                enabled,
                auto_download,
                interval_minutes,
            } = found;
            let ch = ChannelFollow {
                id: own_id,
                url,
                title,
                added_at_ms,
                last_checked_ms: Some(now),
                seen_ids: forget_oldest(absorb(seen_ids, fetched_ids)),
                enabled,
                auto_download,
                interval_minutes,
            };
            let ghost after = polled(was, fetched_ids.deep_view(), now);
            assert(ch.deep_view() =~= after);
            m.insert(id.to_owned(), ch);
            assert(m.deep_view() =~= before.insert(id@, after));
            assert(new_ids.deep_view() =~= reported(was.seen_ids, fetched_ids.deep_view()));
            store.channels = m;
            new_ids
        },
    }
}

/// Records the outcome of a poll, now.
pub fn record_poll(store: &mut ChannelStore, id: &str, fetched_ids: &[String]) -> (r: Vec<String>)
    ensures
        filed_by_id(final(store).deep_view()),
        old(store).deep_view().contains_key(id@) ==> {
            &&& exists|now: u64|
                final(store).deep_view() == old(store).deep_view().insert(
                    id@,
                    #[trigger] polled(old(store).deep_view()[id@], fetched_ids.deep_view(), now),
                )
            &&& r.deep_view() == reported(
                old(store).deep_view()[id@].seen_ids,
                fetched_ids.deep_view(),
            )
        },
        !old(store).deep_view().contains_key(id@) ==> {
            &&& final(store).deep_view() == old(store).deep_view()
            &&& r@.len() == 0
        },
{
    record_poll_at(store, id, fetched_ids, now_ms())
}

// ---------------------------------------------------------------------------------------------
// Laws
// ---------------------------------------------------------------------------------------------

/// White space around an address makes no difference to the id of its channel.
pub proof fn id_ignores_outer_space(before: Seq<char>, url: Seq<char>, after: Seq<char>)
    requires
        forall|i: int| 0 <= i < before.len() ==> crate::text::white_space(#[trigger] before[i]),
        forall|i: int| 0 <= i < after.len() ==> crate::text::white_space(#[trigger] after[i]),
    ensures
        channel_id(before + url + after) == channel_id(url),
{
    trimmed_ignores_outer_space(before, url, after);
}

/// An id is `ch` followed by sixteen lowercase hexadecimal digits.
pub proof fn id_has_fixed_shape(url: Seq<char>)
    ensures
        channel_id(url).len() == 18,
        channel_id(url).take(2) == "ch"@,
        forall|i: int| 2 <= i < 18 ==> is_hex_digit(#[trigger] channel_id(url)[i]),
{
    reveal_strlit("ch");
    let hash = text_hash(trimmed(url)) as nat;
    hex_text_len(hash, 16);
    hex_text_has_hex_digits(hash, 16);
    assert forall|i: int| 2 <= i < 18 implies is_hex_digit(#[trigger] channel_id(url)[i]) by {
        assert(channel_id(url)[i] == hex_text(hash, 16)[i - 2]);
    }
    assert(channel_id(url).take(2) =~= "ch"@);
}

/// Two addresses share an id exactly when the hashes of the trimmed addresses agree.
pub proof fn ids_agree_with_hashes(a: Seq<char>, b: Seq<char>)
    ensures
        channel_id(a) == channel_id(b) <==> text_hash(trimmed(a)) == text_hash(trimmed(b)),
{
    let x = text_hash(trimmed(a));
    let y = text_hash(trimmed(b));
    if id_of(x) == id_of(y) {
        assert(id_of(x).skip("ch"@.len() as int) =~= hex_text(x as nat, 16));
        assert(id_of(y).skip("ch"@.len() as int) =~= hex_text(y as nat, 16));
        assert(vstd::arithmetic::power::pow(16, 16) == 0x1_0000_0000_0000_0000) by {
            reveal_with_fuel(vstd::arithmetic::power::pow, 17);
        }
        hex_text_is_injective(x as nat, y as nat, 16);
    }
}

/// What was saved is what is read back: loading every channel of a store, in any order, gives
/// the store.
pub proof fn save_then_load(m: Map<Seq<char>, ChannelModel>, s: Seq<ChannelModel>)
    requires
        filed_by_id(m),
        holds_all(m, s),
    ensures
        loaded(s) == m,
{
    lemma_loaded_lookup(s);
    let l = loaded(s);
    assert forall|k: Seq<char>| #[trigger] m.contains_key(k) <==> l.contains_key(k) by {
        if m.contains_key(k) {
            let i = choose|i: int| 0 <= i < s.len() && (#[trigger] s[i]).id == k;
            assert(l.contains_key(s[i].id));
        }
        if l.contains_key(k) {
            let i = choose|i: int| 0 <= i < s.len() && (#[trigger] s[i]).id == k;
            assert(m.contains_key(s[i].id));
        }
    }
    assert forall|k: Seq<char>| #[trigger] m.contains_key(k) implies m[k] == l[k] by {
        let i = choose|i: int| 0 <= i < s.len() && (#[trigger] s[i]).id == k;
        assert(l[s[i].id] == s[i]);
    }
    assert(l =~= m);
}

/// Where no id occurs twice, loading files every channel under its id, and nothing else.
proof fn lemma_loaded_lookup(s: Seq<ChannelModel>)
    requires
        forall|i: int, j: int|
            #![trigger s[i], s[j]]
            0 <= i < j < s.len() ==> s[i].id != s[j].id,
    ensures
        forall|i: int|
            0 <= i < s.len() ==> loaded(s).contains_key((#[trigger] s[i]).id) && loaded(s)[s[i].id]
                == s[i],
        forall|k: Seq<char>| #[trigger]
            loaded(s).contains_key(k) ==> exists|i: int|
                0 <= i < s.len() && (#[trigger] s[i]).id == k,
    decreases s.len(),
{
    if s.len() > 0 {
        let t = s.drop_last();
        assert forall|i: int, j: int|
            #![trigger t[i], t[j]]
            0 <= i < j < t.len() implies t[i].id != t[j].id by {
            assert(t[i] == s[i] && t[j] == s[j]);
        }
        lemma_loaded_lookup(t);
        assert forall|i: int| 0 <= i < s.len() implies loaded(s).contains_key((#[trigger] s[i]).id)
            && loaded(s)[s[i].id] == s[i] by {
            if i < t.len() {
                assert(t[i] == s[i]);
                assert(s[i].id != s[s.len() - 1].id);
            }
        }
        assert forall|k: Seq<char>| #[trigger] loaded(s).contains_key(k) implies exists|i: int|
            0 <= i < s.len() && (#[trigger] s[i]).id == k by {
            if k == s.last().id {
                assert(s[s.len() - 1].id == k);
            } else {
                assert(loaded(t).contains_key(k));
                let i = choose|i: int| 0 <= i < t.len() && (#[trigger] t[i]).id == k;
                assert(s[i] == t[i]);
            }
        }
    }
}

/// Following a channel and then not following it any more leaves the store as it was.
pub proof fn follow_then_unfollow(
    m: Map<Seq<char>, ChannelModel>,
    id: Seq<char>,
    url: Seq<char>,
    title: Seq<char>,
    now: u64,
)
    requires
        !m.contains_key(id),
    ensures
        m.insert(id, followed(m, id, url, title, now)).remove(id) == m,
{
    assert(m.insert(id, followed(m, id, url, title, now)).remove(id) =~= m);
}

/// Following a channel that is followed already changes nothing but its title, and not even
/// that where no title is given.
pub proof fn following_again(
    m: Map<Seq<char>, ChannelModel>,
    id: Seq<char>,
    url: Seq<char>,
    title: Seq<char>,
    now: u64,
)
    requires
        m.contains_key(id),
    ensures
        followed(m, id, url, title, now) == (ChannelModel {
            title: followed(m, id, url, title, now).title,
            ..m[id]
        }),
        title.len() == 0 ==> m.insert(id, followed(m, id, url, title, now)) == m,
{
    if title.len() == 0 {
        assert(m.insert(id, followed(m, id, url, title, now)) =~= m);
    }
}

/// An update that gives no setting changes nothing; one that gives an interval leaves one that
/// is not too short.
pub proof fn settings_stay_in_bounds(
    ch: ChannelModel,
    enabled: Option<bool>,
    auto_download: Option<bool>,
    interval_minutes: Option<u32>,
)
    ensures
        with_settings(ch, None, None, None) == ch,
        interval_minutes is Some ==> with_settings(
            ch,
            enabled,
            auto_download,
            interval_minutes,
        ).interval_minutes >= MIN_INTERVAL_MINUTES,
        with_settings(
            with_settings(ch, enabled, auto_download, interval_minutes),
            enabled,
            auto_download,
            interval_minutes,
        ) == with_settings(ch, enabled, auto_download, interval_minutes),
{
}

/// After a poll the ids seen, before any is forgotten, are those seen before and those fetched.
pub proof fn absorbed_is_union(seen: Seq<Seq<char>>, fetched: Seq<Seq<char>>, id: Seq<char>)
    ensures
        absorbed(seen, fetched).contains(id) <==> seen.contains(id) || fetched.contains(id),
    decreases fetched.len(),
{
    if fetched.len() > 0 {
        let before = absorbed(seen, fetched.drop_last());
        absorbed_is_union(seen, fetched.drop_last(), id);
        assert(fetched.contains(id) <==> fetched.drop_last().contains(id) || id == fetched.last())
            by {
            if fetched.contains(id) {
                let i = choose|i: int| 0 <= i < fetched.len() && fetched[i] == id;
                if i < fetched.len() - 1 {
                    assert(fetched.drop_last()[i] == id);
                }
            }
            if fetched.drop_last().contains(id) {
                let i = choose|i: int| 0 <= i < fetched.len() - 1 && fetched.drop_last()[i] == id;
                assert(fetched[i] == id);
            }
            assert(fetched[fetched.len() - 1] == fetched.last());
        }
        let pushed = before.push(fetched.last());
        assert(pushed.contains(id) <==> before.contains(id) || id == fetched.last()) by {
            if before.contains(id) {
                let i = choose|i: int| 0 <= i < before.len() && before[i] == id;
                assert(pushed[i] == id);
            }
            if pushed.contains(id) {
                let i = choose|i: int| 0 <= i < pushed.len() && pushed[i] == id;
                if i < before.len() {
                    assert(before[i] == id);
                }
            }
            assert(pushed[before.len() as int] == fetched.last());
        }
    }
}

proof fn lemma_absorbed_distinct(seen: Seq<Seq<char>>, fetched: Seq<Seq<char>>)
    requires
        seen.no_duplicates(),
    ensures
        absorbed(seen, fetched).no_duplicates(),
    decreases fetched.len(),
{
    if fetched.len() > 0 {
        lemma_absorbed_distinct(seen, fetched.drop_last());
    }
}

/// A poll leaves a channel with no more ids than it may remember, and with distinct ids where
/// they were distinct before.
pub proof fn poll_keeps_seen_ids_bounded(ch: ChannelModel, fetched: Seq<Seq<char>>, now: u64)
    ensures
        polled(ch, fetched, now).seen_ids.len() <= MAX_SEEN_IDS,
        ch.seen_ids.no_duplicates() ==> polled(ch, fetched, now).seen_ids.no_duplicates(),
{
    if ch.seen_ids.no_duplicates() {
        lemma_absorbed_distinct(ch.seen_ids, fetched);
    }
}

/// Every id that a channel remembers after a poll was seen before or has just been fetched.
pub proof fn poll_invents_no_ids(
    ch: ChannelModel,
    fetched: Seq<Seq<char>>,
    now: u64,
    id: Seq<char>,
)
    requires
        polled(ch, fetched, now).seen_ids.contains(id),
    ensures
        ch.seen_ids.contains(id) || fetched.contains(id),
{
    let all = absorbed(ch.seen_ids, fetched);
    let kept = polled(ch, fetched, now).seen_ids;
    let i = choose|i: int| 0 <= i < kept.len() && kept[i] == id;
    if all.len() > MAX_SEEN_IDS {
        assert(all[i + (all.len() - MAX_SEEN_IDS)] == id);
    }
    assert(all.contains(id));
    absorbed_is_union(ch.seen_ids, fetched, id);
}

/// A channel that has seen something reports exactly the fetched ids that it had not seen.
pub proof fn report_is_what_was_unseen(
    seen: Seq<Seq<char>>,
    fetched: Seq<Seq<char>>,
    id: Seq<char>,
)
    requires
        seen.len() > 0,
    ensures
        reported(seen, fetched).contains(id) <==> fetched.contains(id) && !seen.contains(id),
{
    let pred = |id: Seq<char>| !seen.contains(id);
    let r = fetched.filter(pred);
    if r.contains(id) {
        let i = choose|i: int| 0 <= i < r.len() && r[i] == id;
        fetched.lemma_filter_pred(pred, i);
        fetched.lemma_filter_contains_rev(pred, id);
    }
    if fetched.contains(id) && !seen.contains(id) {
        let i = choose|i: int| 0 <= i < fetched.len() && fetched[i] == id;
        fetched.lemma_filter_contains(pred, i);
    }
}

/// The first poll of a channel reports nothing: it sets the baseline.
pub proof fn first_poll_sets_baseline(fetched: Seq<Seq<char>>)
    ensures
        reported(seq![], fetched) == Seq::<Seq<char>>::empty(),
        forall|id: Seq<char>| #[trigger]
            absorbed(seq![], fetched).contains(id) <==> fetched.contains(id),
{
    assert forall|id: Seq<char>| #[trigger]
        absorbed(seq![], fetched).contains(id) <==> fetched.contains(id) by {
        absorbed_is_union(seq![], fetched, id);
    }
}

/// A poll that fetches what the poll before it fetched reports nothing, exactly when none of
/// what was fetched had to be forgotten; and nothing is, as long as there is room.
pub proof fn polling_again_reports_nothing(ch: ChannelModel, fetched: Seq<Seq<char>>, now: u64)
    ensures
        ({
            let seen = polled(ch, fetched, now).seen_ids;
            (reported(seen, fetched) == Seq::<Seq<char>>::empty()) <==> (forall|id: Seq<char>|
                fetched.contains(id) ==> #[trigger] seen.contains(id))
        }),
        absorbed(ch.seen_ids, fetched).len() <= MAX_SEEN_IDS ==> reported(
            polled(ch, fetched, now).seen_ids,
            fetched,
        ) == Seq::<Seq<char>>::empty(),
{
    let all = absorbed(ch.seen_ids, fetched);
    let seen = polled(ch, fetched, now).seen_ids;
    let r = reported(seen, fetched);
    assert forall|id: Seq<char>| fetched.contains(id) implies #[trigger] all.contains(id) by {
        absorbed_is_union(ch.seen_ids, fetched, id);
    }
    if forall|id: Seq<char>| fetched.contains(id) ==> #[trigger] seen.contains(id) {
        if r.len() > 0 {
            assert(r.contains(r[0]));
            report_is_what_was_unseen(seen, fetched, r[0]);
        }
        assert(r =~= seq![]);
    }
    if r == Seq::<Seq<char>>::empty() {
        assert forall|id: Seq<char>| fetched.contains(id) implies #[trigger] seen.contains(id) by {
            assert(all.contains(id));
            if seen.len() > 0 {
                report_is_what_was_unseen(seen, fetched, id);
            }
        }
    }
}

/// A poll that fetches only ids that are remembered reports nothing, and changes nothing but the
/// time of the last poll.
pub proof fn polling_known_ids_changes_nothing(
    ch: ChannelModel,
    fetched: Seq<Seq<char>>,
    now: u64,
)
    requires
        ch.seen_ids.len() <= MAX_SEEN_IDS,
        forall|id: Seq<char>| #[trigger] fetched.contains(id) ==> ch.seen_ids.contains(id),
    ensures
        reported(ch.seen_ids, fetched) == Seq::<Seq<char>>::empty(),
        polled(ch, fetched, now) == (ChannelModel { last_checked_ms: Some(now), ..ch }),
{
    let r = reported(ch.seen_ids, fetched);
    if r.len() > 0 {
        assert(r.contains(r[0]));
        report_is_what_was_unseen(ch.seen_ids, fetched, r[0]);
        assert(fetched.contains(r[0]));
    }
    assert(r =~= seq![]);
    lemma_known_ids_are_absorbed(ch.seen_ids, fetched);
}

proof fn lemma_known_ids_are_absorbed(seen: Seq<Seq<char>>, fetched: Seq<Seq<char>>)
    requires
        forall|id: Seq<char>| #[trigger] fetched.contains(id) ==> seen.contains(id),
    ensures
        absorbed(seen, fetched) == seen,
    decreases fetched.len(),
{
    if fetched.len() > 0 {
        let init = fetched.drop_last();
        assert forall|id: Seq<char>| #[trigger] init.contains(id) implies seen.contains(id) by {
            let i = choose|i: int| 0 <= i < init.len() && init[i] == id;
            assert(fetched[i] == id);
            assert(fetched.contains(id));
        }
        lemma_known_ids_are_absorbed(seen, init);
        assert(fetched[fetched.len() - 1] == fetched.last());
        assert(fetched.contains(fetched.last()));
    }
}

/// A poll that fetches nothing but what the poll before it fetched reports nothing and leaves the
/// seen ids as they are, as long as nothing had to be forgotten.
pub proof fn polling_part_again_reports_nothing(
    ch: ChannelModel,
    fetched: Seq<Seq<char>>,
    now: u64,
    again: Seq<Seq<char>>,
    later: u64,
)
    requires
        absorbed(ch.seen_ids, fetched).len() <= MAX_SEEN_IDS,
        forall|id: Seq<char>| #[trigger] again.contains(id) ==> fetched.contains(id),
    ensures
        reported(polled(ch, fetched, now).seen_ids, again) == Seq::<Seq<char>>::empty(),
        polled(polled(ch, fetched, now), again, later) == (ChannelModel {
            last_checked_ms: Some(later),
            ..polled(ch, fetched, now)
        }),
{
    let after = polled(ch, fetched, now);
    assert forall|id: Seq<char>| #[trigger] again.contains(id) implies after.seen_ids.contains(
        id,
    ) by {
        absorbed_is_union(ch.seen_ids, fetched, id);
    }
    polling_known_ids_changes_nothing(after, again, later);
}

/// A channel is as it should be: its address is trimmed and gives its id, its interval is not too
/// short, and it remembers distinct ids, no more than it may.
pub open spec fn is_sound(ch: ChannelModel) -> bool {
    &&& ch.url == trimmed(ch.url)
    &&& ch.id == channel_id(ch.url)
    &&& ch.interval_minutes >= MIN_INTERVAL_MINUTES
    &&& ch.seen_ids.no_duplicates()
    &&& ch.seen_ids.len() <= MAX_SEEN_IDS
}

/// Every channel of a store is as it should be, and is filed under its id.
pub open spec fn is_sound_store(m: Map<Seq<char>, ChannelModel>) -> bool {
    &&& filed_by_id(m)
    &&& forall|k: Seq<char>| #[trigger] m.contains_key(k) ==> is_sound(m[k])
}

/// A store that follows nothing is sound, and following a channel keeps a store sound.
pub proof fn following_keeps_a_store_sound(
    m: Map<Seq<char>, ChannelModel>,
    url: Seq<char>,
    title: Seq<char>,
    now: u64,
)
    requires
        is_sound_store(m),
    ensures
        is_sound_store(Map::empty()),
        is_sound_store(
            m.insert(channel_id(url), followed(m, channel_id(url), url, title, now)),
        ),
{
    trimmed_is_idempotent(url);
    let id = channel_id(url);
    let ch = followed(m, id, url, title, now);
    assert(is_sound(ch) && ch.id == id) by {
        if m.contains_key(id) {
            assert(is_sound(m[id]));
        }
    }
}

/// Changing the settings of a channel keeps a store sound.
pub proof fn settings_keep_a_store_sound(
    m: Map<Seq<char>, ChannelModel>,
    id: Seq<char>,
    enabled: Option<bool>,
    auto_download: Option<bool>,
    interval_minutes: Option<u32>,
)
    requires
        is_sound_store(m),
        m.contains_key(id),
    ensures
        is_sound_store(
            m.insert(id, with_settings(m[id], enabled, auto_download, interval_minutes)),
        ),
{
    assert(is_sound(m[id]));
}

/// Recording a poll keeps a store sound.
pub proof fn polling_keeps_a_store_sound(
    m: Map<Seq<char>, ChannelModel>,
    id: Seq<char>,
    fetched: Seq<Seq<char>>,
    now: u64,
)
    requires
        is_sound_store(m),
        m.contains_key(id),
    ensures
        is_sound_store(m.insert(id, polled(m[id], fetched, now))),
{
    assert(is_sound(m[id]));
    poll_keeps_seen_ids_bounded(m[id], fetched, now);
}

/// Not following a channel any more keeps a store sound.
pub proof fn unfollowing_keeps_a_store_sound(m: Map<Seq<char>, ChannelModel>, id: Seq<char>)
    requires
        is_sound_store(m),
    ensures
        is_sound_store(m.remove(id)),
{
    assert forall|k: Seq<char>| #[trigger] m.remove(id).contains_key(k) implies is_sound(
        m.remove(id)[k],
    ) && m.remove(id)[k].id == k by {
        assert(m.contains_key(k));
    }
}

/// Loading channels that are as they should be gives a sound store.
pub proof fn loading_gives_a_sound_store(s: Seq<ChannelModel>)
    requires
        forall|i: int| 0 <= i < s.len() ==> is_sound(#[trigger] s[i]),
    ensures
        is_sound_store(loaded(s)),
    decreases s.len(),
{
    if s.len() > 0 {
        let t = s.drop_last();
        assert forall|i: int| 0 <= i < t.len() implies is_sound(#[trigger] t[i]) by {
            assert(t[i] == s[i]);
        }
        loading_gives_a_sound_store(t);
        assert(is_sound(s[s.len() - 1]));
    }
}

/// A setting that is given is the channel's setting from then on, whatever it was before, but for
/// an interval that is too short; one that is not given stays, and nothing else changes.
pub proof fn given_settings_hold(
    ch: ChannelModel,
    enabled: Option<bool>,
    auto_download: Option<bool>,
    interval_minutes: Option<u32>,
)
    ensures
        ({
            let after = with_settings(ch, enabled, auto_download, interval_minutes);
            &&& enabled matches Some(v) ==> after.enabled == v
            &&& enabled is None ==> after.enabled == ch.enabled
            &&& auto_download matches Some(v) ==> after.auto_download == v
            &&& auto_download is None ==> after.auto_download == ch.auto_download
            &&& interval_minutes matches Some(v) ==> (v >= 5 ==> after.interval_minutes == v)
            &&& interval_minutes matches Some(v) ==> (v < 5 ==> after.interval_minutes == 5)
            &&& interval_minutes is None ==> after.interval_minutes == ch.interval_minutes
            &&& after.id == ch.id
            &&& after.url == ch.url
            &&& after.title == ch.title
            &&& after.added_at_ms == ch.added_at_ms
            &&& after.last_checked_ms == ch.last_checked_ms
            &&& after.seen_ids == ch.seen_ids
        }),
{
}

/// The later of two updates wins, setting by setting.
pub proof fn the_later_setting_wins(
    ch: ChannelModel,
    enabled: bool,
    auto_download: bool,
    interval_minutes: u32,
    before: (Option<bool>, Option<bool>, Option<u32>),
)
    ensures
        with_settings(
            with_settings(ch, before.0, before.1, before.2),
            Some(enabled),
            Some(auto_download),
            Some(interval_minutes),
        ) == with_settings(ch, Some(enabled), Some(auto_download), Some(interval_minutes)),
{
}

/// A channel that is followed for the first time is filed under its id with its trimmed address
/// and its title, at the time it is followed; it was never polled, it is polled every hour, and
/// nothing is downloaded by itself.
pub proof fn new_channel_has_the_defaults(
    m: Map<Seq<char>, ChannelModel>,
    id: Seq<char>,
    url: Seq<char>,
    title: Seq<char>,
    now: u64,
)
    requires
        !m.contains_key(id),
    ensures
        ({
            let ch = followed(m, id, url, title, now);
            &&& ch.id == id
            &&& ch.url == trimmed(url)
            &&& ch.title == title
            &&& ch.added_at_ms == now
            &&& ch.last_checked_ms is None
            &&& ch.seen_ids.len() == 0
            &&& ch.enabled
            &&& !ch.auto_download
            &&& ch.interval_minutes == 60
        }),
{
}

/// A channel that is followed already keeps everything but its title; the title is the given one
/// where one is given, and otherwise the one that it had.
pub proof fn known_channel_keeps_all_but_its_title(
    m: Map<Seq<char>, ChannelModel>,
    id: Seq<char>,
    url: Seq<char>,
    title: Seq<char>,
    now: u64,
)
    requires
        m.contains_key(id),
    ensures
        ({
            let ch = followed(m, id, url, title, now);
            &&& title.len() > 0 ==> ch.title == title
            &&& title.len() == 0 ==> ch.title == m[id].title
            &&& ch.id == m[id].id
            &&& ch.url == m[id].url
            &&& ch.added_at_ms == m[id].added_at_ms
            &&& ch.last_checked_ms == m[id].last_checked_ms
            &&& ch.seen_ids == m[id].seen_ids
            &&& ch.enabled == m[id].enabled
            &&& ch.auto_download == m[id].auto_download
            &&& ch.interval_minutes == m[id].interval_minutes
        }),
{
}

/// The digits of an id, read as a number, are the hash of the trimmed address.
pub proof fn id_digits_are_the_hash(url: Seq<char>)
    ensures
        hex_value(channel_id(url).skip(2)) == DefaultHasher::spec_finish(
            text_writes(trimmed(url)),
        ),
{
    reveal_strlit("ch");
    let hash = text_hash(trimmed(url));
    assert(channel_id(url).skip(2) =~= hex_text(hash as nat, 16));
    assert(vstd::arithmetic::power::pow(16, 16) == 0x1_0000_0000_0000_0000) by {
        reveal_with_fuel(vstd::arithmetic::power::pow, 17);
    }
    hex_text_is_read_back(hash as nat, 16);
}

/// What was seen before stays at the front, in order; behind it stand the fetched ids that were
/// not seen, each once.
pub proof fn fetched_ids_go_to_the_end(seen: Seq<Seq<char>>, fetched: Seq<Seq<char>>)
    ensures
        seen.is_prefix_of(absorbed(seen, fetched)),
        forall|i: int|
            seen.len() <= i < absorbed(seen, fetched).len() ==> fetched.contains(
                #[trigger] absorbed(seen, fetched)[i],
            ) && !seen.contains(absorbed(seen, fetched)[i]),
        forall|i: int, j: int|
            #![trigger absorbed(seen, fetched)[i], absorbed(seen, fetched)[j]]
            seen.len() <= i < j < absorbed(seen, fetched).len() ==> absorbed(seen, fetched)[i]
                != absorbed(seen, fetched)[j],
    decreases fetched.len(),
{
    let a = absorbed(seen, fetched);
    if fetched.len() > 0 {
        let init = fetched.drop_last();
        let before = absorbed(seen, init);
        fetched_ids_go_to_the_end(seen, init);
        assert forall|id: Seq<char>| init.contains(id) implies fetched.contains(id) by {
            let k = choose|k: int| 0 <= k < init.len() && init[k] == id;
            assert(fetched[k] == id);
        }
        assert(fetched[fetched.len() - 1] == fetched.last());
        assert forall|i: int| seen.len() <= i < a.len() implies fetched.contains(
            #[trigger] a[i],
        ) && !seen.contains(a[i]) by {
            if i < before.len() {
                assert(a[i] == before[i]);
            } else if seen.contains(a[i]) {
                let k = choose|k: int| 0 <= k < seen.len() && seen[k] == a[i];
                assert(before[k] == seen[k]);
                assert(before.contains(fetched.last()));
            }
        }
        assert forall|i: int, j: int|
            #![trigger a[i], a[j]]
            seen.len() <= i < j < a.len() implies a[i] != a[j] by {
            assert(a[i] == before[i]);
            if j < before.len() {
                assert(a[j] == before[j]);
            } else {
                assert(before.contains(before[i]));
            }
        }
    }
}

/// Polls add up: seeing ids in two parts is seeing them one after the other, and seeing one id
/// puts it at the end unless it is there.
pub proof fn seeing_in_parts(seen: Seq<Seq<char>>, a: Seq<Seq<char>>, b: Seq<Seq<char>>)
    ensures
        absorbed(seen, a + b) == absorbed(absorbed(seen, a), b),
        absorbed(seen, seq![]) == seen,
        b.len() == 1 && seen.contains(b[0]) ==> absorbed(seen, b) == seen,
        b.len() == 1 && !seen.contains(b[0]) ==> absorbed(seen, b) == seen.push(b[0]),
    decreases b.len(),
{
    reveal_with_fuel(absorbed, 2);
    if b.len() > 0 {
        let init = b.drop_last();
        seeing_in_parts(seen, a, init);
        assert((a + b).drop_last() =~= a + init);
        assert((a + b).last() == b.last());
        if b.len() == 1 {
            assert(init =~= seq![]);
        }
    } else {
        assert(a + b =~= a);
    }
}

/// After a poll a channel remembers the last five hundred of the ids seen, or all where there are
/// no more; it notes the time, and nothing else of it changes.
pub proof fn poll_changes_ids_and_time_alone(
    ch: ChannelModel,
    fetched: Seq<Seq<char>>,
    now: u64,
)
    ensures
        ({
            let after = polled(ch, fetched, now);
            let all = absorbed(ch.seen_ids, fetched);
            &&& after.seen_ids.is_suffix_of(all)
            &&& all.len() <= 500 ==> after.seen_ids.len() == all.len()
            &&& all.len() > 500 ==> after.seen_ids.len() == 500
            &&& after.last_checked_ms == Some(now)
            &&& after.id == ch.id
            &&& after.url == ch.url
            &&& after.title == ch.title
            &&& after.added_at_ms == ch.added_at_ms
            &&& after.enabled == ch.enabled
            &&& after.auto_download == ch.auto_download
            &&& after.interval_minutes == ch.interval_minutes
        }),
{
}

/// A report lists the unseen ids in the order fetched, as often as they were fetched: what is
/// reported of two parts is what is reported of each, and of one id it is the id unless it was
/// seen. Nothing is reported where nothing was seen before.
pub proof fn reporting_in_parts(seen: Seq<Seq<char>>, a: Seq<Seq<char>>, b: Seq<Seq<char>>)
    ensures
        reported(seen, a + b) == reported(seen, a) + reported(seen, b),
        seen.len() > 0 && b.len() == 1 && !seen.contains(b[0]) ==> reported(seen, b) == b,
        seen.len() > 0 && b.len() == 1 && seen.contains(b[0]) ==> reported(seen, b).len() == 0,
        seen.len() == 0 ==> reported(seen, a).len() == 0,
    decreases b.len(),
{
    let pred = |id: Seq<char>| !seen.contains(id);
    reveal(Seq::filter);
    if seen.len() > 0 {
        if b.len() > 0 {
            let init = b.drop_last();
            reporting_in_parts(seen, a, init);
            assert((a + b).drop_last() =~= a + init);
            assert((a + b).last() == b.last());
            assert(b =~= init.push(b.last()));
            if b.len() == 1 {
                assert(init =~= seq![]);
                assert(init.filter(pred) =~= seq![]);
                if !seen.contains(b[0]) {
                    assert(reported(seen, b) =~= b);
                }
            }
            assert(reported(seen, a + b) =~= reported(seen, a) + reported(seen, b));
        } else {
            assert(a + b =~= a);
            assert(reported(seen, b) =~= seq![]);
            assert(reported(seen, a + b) =~= reported(seen, a) + reported(seen, b));
        }
    } else {
        assert(reported(seen, a + b) =~= reported(seen, a) + reported(seen, b));
    }
}

/// A listing of a store has each of its channels once, under its id, and no other; and it is in
/// the order added when no channel was added after one behind it.
pub proof fn listing_is_the_store(m: Map<Seq<char>, ChannelModel>, s: Seq<ChannelModel>)
    requires
        holds_all(m, s),
    ensures
        forall|k: Seq<char>|
            (exists|i: int| 0 <= i < s.len() && (#[trigger] s[i]).id == k && s[i] == m[k])
                <==> #[trigger] m.contains_key(k),
        forall|i: int, j: int|
            #![trigger s[i], s[j]]
            0 <= i < s.len() && 0 <= j < s.len() && s[i].id == s[j].id ==> i == j,
        in_order_added(s) ==> forall|i: int, j: int|
            #![trigger s[i], s[j]]
            0 <= i < j < s.len() ==> s[i].added_at_ms <= s[j].added_at_ms,
{
    assert forall|k: Seq<char>|
        (exists|i: int| 0 <= i < s.len() && (#[trigger] s[i]).id == k && s[i] == m[k])
            <==> #[trigger] m.contains_key(k) by {
        if m.contains_key(k) {
            let i = choose|i: int| 0 <= i < s.len() && (#[trigger] s[i]).id == k;
            assert(m[s[i].id] == s[i]);
        }
        if exists|i: int| 0 <= i < s.len() && (#[trigger] s[i]).id == k && s[i] == m[k] {
            let i = choose|i: int|
                0 <= i < s.len() && (#[trigger] s[i]).id == k && s[i] == m[k];
            assert(m.contains_key(s[i].id));
        }
    }
}

/// Loading gives each channel that was read, the last one where several share an id.
pub proof fn the_last_channel_is_loaded(s: Seq<ChannelModel>, i: int)
    requires
        0 <= i < s.len(),
        forall|j: int| i < j < s.len() ==> (#[trigger] s[j]).id != s[i].id,
    ensures
        loaded(s).contains_key(s[i].id),
        loaded(s)[s[i].id] == s[i],
    decreases s.len(),
{
    if i < s.len() - 1 {
        let t = s.drop_last();
        assert(t[i] == s[i]);
        assert forall|j: int| i < j < t.len() implies (#[trigger] t[j]).id != t[i].id by {
            assert(s[j].id != s[i].id);
        }
        the_last_channel_is_loaded(t, i);
        assert(s[s.len() - 1].id != s[i].id);
    }
}

/// Loading gives no channel that was not read.
pub proof fn loading_invents_no_channel(s: Seq<ChannelModel>, k: Seq<char>)
    requires
        loaded(s).contains_key(k),
    ensures
        exists|i: int| 0 <= i < s.len() && (#[trigger] s[i]).id == k && loaded(s)[k] == s[i],
    decreases s.len(),
{
    let last = s.len() - 1;
    if k == s.last().id {
        assert(s[last].id == k);
    } else {
        let t = s.drop_last();
        loading_invents_no_channel(t, k);
        let i = choose|i: int|
            0 <= i < t.len() && (#[trigger] t[i]).id == k && loaded(t)[k] == t[i];
        assert(s[i] == t[i]);
    }
}

/// A model of a channel has its fields, each as it is.
pub proof fn channel_follow_is_modelled_by_its_fields(x: ChannelFollow)
    ensures
        x.deep_view().id == x.id@,
        x.deep_view().url == x.url@,
        x.deep_view().title == x.title@,
        x.deep_view().added_at_ms == x.added_at_ms,
        x.deep_view().last_checked_ms == x.last_checked_ms,
        x.deep_view().seen_ids == x.seen_ids.deep_view(),
        x.deep_view().enabled == x.enabled,
        x.deep_view().auto_download == x.auto_download,
        x.deep_view().interval_minutes == x.interval_minutes,
{
}

} // verus!
