//! What is installed, and how it differs from what is offered.

use vstd::prelude::*;

use crate::duplicate::Duplicate;
use crate::order::{arranged, arranged_keeps_elements, ascending, bytes_le, has_text};
use crate::order::{is_arrangement, sort_texts, stable_order, text_le, SortKey};
use crate::pets::download::{RemoteManifest, RemoteManifestModel, RemotePet, RemotePetModel};
use crate::pets::manifest::{LocalManifest, LocalManifestModel, LocalPetEntry, LocalPetModel};
use crate::strmap::{keys_ascend, keys_of};
use crate::text::lowercase;

verus! {

// ---------------------------------------------------------------------------------------------
// Reports and events
// ---------------------------------------------------------------------------------------------

/// How the installed pets differ from the offered ones.
#[derive(Debug)]
pub struct DiffReport {
    pub new_remote: Vec<String>,
    pub in_both: Vec<String>,
    pub only_local: Vec<String>,
    pub total_remote: u32,
    pub total_local: u32,
}

impl Clone for DiffReport {
    fn clone(&self) -> (r: Self)
        ensures
            r.new_remote.deep_view() == self.new_remote.deep_view(),
            r.in_both.deep_view() == self.in_both.deep_view(),
            r.only_local.deep_view() == self.only_local.deep_view(),
            r.total_remote == self.total_remote,
            r.total_local == self.total_local,
    {
        DiffReport {
            new_remote: self.new_remote.duplicate(),
            in_both: self.in_both.duplicate(),
            only_local: self.only_local.duplicate(),
            total_remote: self.total_remote,
            total_local: self.total_local,
        }
    }
}

/// A pet that could not be installed.
#[derive(Debug)]
pub struct FailedInstall {
    pub slug: String,
    pub reason: String,
}

/// What a [`FailedInstall`] stands for.
#[verifier::ext_equal]
pub struct FailedInstallModel {
    pub slug: Seq<char>,
    pub reason: Seq<char>,
}

impl DeepView for FailedInstall {
    type V = FailedInstallModel;

    open spec fn deep_view(&self) -> FailedInstallModel {
        FailedInstallModel { slug: self.slug@, reason: self.reason@ }
    }
}

impl Duplicate for FailedInstall {
    fn duplicate(&self) -> (r: Self) {
        FailedInstall { slug: self.slug.duplicate(), reason: self.reason.duplicate() }
    }
}

impl Clone for FailedInstall {
    fn clone(&self) -> (r: Self)
        ensures
            r.deep_view() == self.deep_view(),
    {
        self.duplicate()
    }
}

/// What a synchronisation did.
#[derive(Debug)]
pub struct InstallReport {
    pub added: Vec<String>,
    pub skipped: Vec<String>,
    pub failed: Vec<FailedInstall>,
    pub total_bytes: u64,
    pub duration_ms: u64,
}

/// What an [`InstallReport`] stands for.
#[verifier::ext_equal]
pub struct InstallReportModel {
    pub added: Seq<Seq<char>>,
    pub skipped: Seq<Seq<char>>,
    pub failed: Seq<FailedInstallModel>,
    pub total_bytes: u64,
    pub duration_ms: u64,
}

impl DeepView for InstallReport {
    type V = InstallReportModel;

    open spec fn deep_view(&self) -> InstallReportModel {
        InstallReportModel {
            added: self.added.deep_view(),
            skipped: self.skipped.deep_view(),
            failed: self.failed.deep_view(),
            total_bytes: self.total_bytes,
            duration_ms: self.duration_ms,
        }
    }
}

impl Clone for InstallReport {
    fn clone(&self) -> (r: Self)
        ensures
            r.deep_view() == self.deep_view(),
    {
        InstallReport {
            added: self.added.duplicate(),
            skipped: self.skipped.duplicate(),
            failed: self.failed.duplicate(),
            total_bytes: self.total_bytes,
            duration_ms: self.duration_ms,
        }
    }
}

/// The installed pets, as they are shown.
#[derive(Debug)]
pub struct LocalIndex {
    pub pets: Vec<LocalPetEntry>,
    pub last_synced_at: Option<String>,
    pub total: usize,
}

impl Clone for LocalIndex {
    fn clone(&self) -> (r: Self)
        ensures
            r.pets.deep_view() == self.pets.deep_view(),
            r.last_synced_at.deep_view() == self.last_synced_at.deep_view(),
            r.total == self.total,
    {
        LocalIndex {
            pets: self.pets.duplicate(),
            last_synced_at: self.last_synced_at.duplicate(),
            total: self.total,
        }
    }
}

/// A pet was installed in the course of a synchronisation.
#[derive(Debug)]
pub struct ProgressEvent<'a> {
    pub slug: &'a str,
    pub current: u32,
    pub total: u32,
    pub bytes_downloaded: u64,
    pub bytes_total: u64,
}

impl<'a> Clone for ProgressEvent<'a> {
    fn clone(&self) -> (r: Self)
        ensures
            r == *self,
    {
        ProgressEvent {
            slug: self.slug,
            current: self.current,
            total: self.total,
            bytes_downloaded: self.bytes_downloaded,
            bytes_total: self.bytes_total,
        }
    }
}

/// A synchronisation has begun.
#[derive(Debug)]
pub struct StartedEvent {
    pub kind: String,
    pub expected: u32,
}

impl Clone for StartedEvent {
    fn clone(&self) -> (r: Self)
        ensures
            r.kind@ == self.kind@,
            r.expected == self.expected,
    {
        StartedEvent { kind: self.kind.duplicate(), expected: self.expected }
    }
}

// ---------------------------------------------------------------------------------------------
// The index
// ---------------------------------------------------------------------------------------------

/// The values of a manifest's pets, in the order of their slugs.
pub open spec fn values_in_order(pairs: Seq<(Seq<char>, LocalPetModel)>) -> Seq<LocalPetModel> {
    Seq::new(pairs.len(), |i: int| pairs[i].1)
}

/// `index` lists the pets of `pairs` in ascending order of their display names without regard
/// to case; pets whose names agree in that way stand in the order of their slugs.
pub open spec fn indexes(
    pairs: Seq<(Seq<char>, LocalPetModel)>,
    index: Seq<LocalPetModel>,
) -> bool {
    exists|p: Seq<usize>| #[trigger] is_index_order(pairs, index, p)
}

/// `p` gives, for each pet of `index`, its position in `pairs`.
pub open spec fn is_index_order(
    pairs: Seq<(Seq<char>, LocalPetModel)>,
    index: Seq<LocalPetModel>,
    p: Seq<usize>,
) -> bool {
    &&& is_arrangement(p, pairs.len())
    &&& index == arranged(values_in_order(pairs), p)
    &&& forall|i: int, j: int|
        #![trigger p[i], p[j]]
        0 <= i < j < p.len() ==> {
            let a = lowercase(pairs[p[i] as int].1.display_name);
            let b = lowercase(pairs[p[j] as int].1.display_name);
            text_le(a, b) && (a == b ==> p[i] < p[j])
        }
}

/// The index of the installed pets: sorted by display name without regard to case.
pub fn refresh_index(manifest: &LocalManifest) -> (r: LocalIndex)
    ensures
        keys_ascend(keys_of(manifest.pets.pairs())),
        indexes(manifest.pets.pairs(), r.pets.deep_view()),
        r.last_synced_at.deep_view() == manifest.deep_view().last_synced_at,
        r.total == r.pets@.len() == manifest.pets.pairs().len(),
{
    let n = manifest.pets.len();
    let ghost pairs = manifest.pets.pairs();
    let mut keys: Vec<String> = Vec::new();
    let mut i: usize = 0;
    while i < n
        invariant
            n == pairs.len(),
            pairs == manifest.pets.pairs(),
            i <= n,
            keys@.len() == i,
            forall|k: int|
                0 <= k < i ==> #[trigger] keys@[k]@ == lowercase(pairs[k].1.display_name),
        decreases n - i,
    {
        let (_, entry) = manifest.pets.entry(i);
        keys.push(entry.display_name.as_str().to_lowercase());
        i += 1;
    }
    let p = stable_order(&keys);
    let mut pets: Vec<LocalPetEntry> = Vec::new();
    i = 0;
    while i < n
        invariant
            n == pairs.len(),
            pairs == manifest.pets.pairs(),
            n == p@.len(),
            is_arrangement(p@, n as nat),
            i <= n,
            pets.deep_view() == arranged(values_in_order(pairs), p@).take(i as int),
        decreases n - i,
    {
        let ghost done = pets.deep_view();
        assert(p@[i as int] < n);
        let (_, entry) = manifest.pets.entry(p[i]);
        let copy = entry.duplicate();
        pets.push(copy);
        assert(pets.deep_view() =~= done.push(copy.deep_view()));
        assert(pets.deep_view() =~= arranged(values_in_order(pairs), p@).take(i + 1));
        i += 1;
    }
    proof {
        assert(pets.deep_view() =~= arranged(values_in_order(pairs), p@));
        assert forall|i: int, j: int|
            #![trigger p@[i], p@[j]]
            0 <= i < j < p@.len() implies {
            let a = lowercase(pairs[p@[i] as int].1.display_name);
            let b = lowercase(pairs[p@[j] as int].1.display_name);
            text_le(a, b) && (a == b ==> p@[i] < p@[j])
        } by {
            assert(p@[i] < n && p@[j] < n);
            let x = keys@[p@[i] as int];
            let y = keys@[p@[j] as int];
            assert(x@ == lowercase(pairs[p@[i] as int].1.display_name));
            assert(y@ == lowercase(pairs[p@[j] as int].1.display_name));
            assert(x.key_le(&y));
            assert(x@ == y@ ==> y.key_le(&x));
        }
        assert(is_index_order(pairs, pets.deep_view(), p@));
    }
    let total = pets.len();
    LocalIndex { pets, last_synced_at: manifest.last_synced_at.duplicate(), total }
}

// ---------------------------------------------------------------------------------------------
// The difference
// ---------------------------------------------------------------------------------------------

/// The slugs of installed pets.
pub open spec fn local_slugs(pets: Seq<LocalPetModel>) -> Seq<Seq<char>> {
    Seq::new(pets.len(), |i: int| pets[i].slug)
}

/// The slugs of offered pets.
pub open spec fn remote_slugs(pets: Seq<RemotePetModel>) -> Seq<Seq<char>> {
    Seq::new(pets.len(), |i: int| pets[i].slug)
}

/// The slugs of pets that failed.
pub open spec fn failed_slugs(failed: Seq<FailedInstallModel>) -> Seq<Seq<char>> {
    Seq::new(failed.len(), |i: int| failed[i].slug)
}

/// The elements of `a` that `b` has as well, or those that it has not.
pub open spec fn shared(a: Seq<Seq<char>>, b: Seq<Seq<char>>, both: bool) -> Seq<Seq<char>> {
    a.filter(|s: Seq<char>| b.contains(s) == both)
}

/// `r` is `s`, sorted.
pub open spec fn is_sorted_form(r: Seq<Seq<char>>, s: Seq<Seq<char>>) -> bool {
    &&& ascending(r)
    &&& r.to_multiset() == s.to_multiset()
}

/// `r` tells how installed pets differ from offered ones: the slugs offered only, those offered
/// and installed, and those installed only, each list sorted; the number of pets that the
/// remote manifest claims, and that of the installed ones, as far as it fits.
pub open spec fn is_difference(
    r: DiffReport,
    installed: Seq<LocalPetModel>,
    remote: RemoteManifestModel,
) -> bool {
    let here = local_slugs(installed);
    let there = remote_slugs(remote.pets);
    &&& is_sorted_form(r.new_remote.deep_view(), shared(there, here, false))
    &&& is_sorted_form(r.in_both.deep_view(), shared(there, here, true))
    &&& is_sorted_form(r.only_local.deep_view(), shared(here, there, false))
    &&& r.total_remote == remote.total
    &&& r.total_local as int == installed.len() % 0x1_0000_0000
}

fn slugs_of_local(pets: &Vec<LocalPetEntry>) -> (r: Vec<String>)
    ensures
        r.deep_view() == local_slugs(pets.deep_view()),
{
    let n = pets.len();
    let mut r: Vec<String> = Vec::new();
    let mut i: usize = 0;
    while i < n
        invariant
            n == pets@.len(),
            i <= n,
            r.deep_view() == local_slugs(pets.deep_view()).take(i as int),
        decreases n - i,
    {
        let ghost done = r.deep_view();
        let s = pets[i].slug.duplicate();
        r.push(s);
        assert(r.deep_view() =~= done.push(s@));
        assert(r.deep_view() =~= local_slugs(pets.deep_view()).take(i + 1));
        i += 1;
    }
    assert(r.deep_view() =~= local_slugs(pets.deep_view()));
    r
}

fn slugs_of_remote(pets: &Vec<RemotePet>) -> (r: Vec<String>)
    ensures
        r.deep_view() == remote_slugs(pets.deep_view()),
{
    let n = pets.len();
    let mut r: Vec<String> = Vec::new();
    let mut i: usize = 0;
    while i < n
        invariant
            n == pets@.len(),
            i <= n,
            r.deep_view() == remote_slugs(pets.deep_view()).take(i as int),
        decreases n - i,
    {
        let ghost done = r.deep_view();
        let s = pets[i].slug.duplicate();
        r.push(s);
        assert(r.deep_view() =~= done.push(s@));
        assert(r.deep_view() =~= remote_slugs(pets.deep_view()).take(i + 1));
        i += 1;
    }
    assert(r.deep_view() =~= remote_slugs(pets.deep_view()));
    r
}

/// The elements of `a` that `b` has as well, or those that it has not.
fn select_shared(a: &Vec<String>, b: &Vec<String>, both: bool) -> (r: Vec<String>)
    ensures
        r.deep_view() == shared(a.deep_view(), b.deep_view(), both),
{
    let n = a.len();
    let ghost pred = |s: Seq<char>| b.deep_view().contains(s) == both;
    let ghost all = a.deep_view();
    let mut r: Vec<String> = Vec::new();
    let mut i: usize = 0;
    proof {
        reveal(Seq::filter);
        assert(r.deep_view() =~= all.take(0).filter(pred));
    }
    while i < n
        invariant
            n == a@.len(),
            all == a.deep_view(),
            pred == (|s: Seq<char>| b.deep_view().contains(s) == both),
            i <= n,
            r.deep_view() == all.take(i as int).filter(pred),
        decreases n - i,
    {
        let ghost done = r.deep_view();
        proof {
            reveal(Seq::filter);
            assert(all.take(i + 1).drop_last() =~= all.take(i as int));
            assert(all.take(i + 1).last() == a@[i as int]@);
        }
        if has_text(b.as_slice(), a[i].as_str()) == both {
            let s = a[i].duplicate();
            r.push(s);
            assert(r.deep_view() =~= done.push(s@));
        }
        i += 1;
    }
    assert(all.take(n as int) =~= all);
    r
}

/// How the installed pets differ from the offered ones: the slugs offered only, those offered
/// and installed, and those installed only, each list sorted.
pub fn diff(local: &LocalIndex, remote: &RemoteManifest) -> (r: DiffReport)
    ensures
        is_difference(r, local.pets.deep_view(), remote.deep_view()),
{
    let here = slugs_of_local(&local.pets);
    let there = slugs_of_remote(&remote.pets);
    let new_remote = select_shared(&there, &here, false);
    let in_both = select_shared(&there, &here, true);
    let only_local = select_shared(&here, &there, false);
    let n = local.pets.len() as u64;
    proof {
        assert((#[verifier::truncate] (n as u32)) == n % 0x1_0000_0000) by (bit_vector);
    }
    DiffReport {
        new_remote: sort_texts(&new_remote),
        in_both: sort_texts(&in_both),
        only_local: sort_texts(&only_local),
        total_remote: remote.total,
        total_local: #[verifier::truncate]
        (n as u32),
    }
}

/// Takes a pet out of the manifest, if it is there.
pub fn uninstall(manifest: &mut LocalManifest, slug: &str)
    ensures
        final(manifest).deep_view() == (LocalManifestModel {
            pets: old(manifest).deep_view().pets.remove(slug@),
            ..old(manifest).deep_view()
        }),
{
    manifest.pets.remove(slug);
}

// ---------------------------------------------------------------------------------------------
// Laws
// ---------------------------------------------------------------------------------------------

/// A slug is among the shared ones, or among those that are not, exactly when it is listed and
/// the other list has it, or has it not.
pub proof fn shared_is_membership(
    a: Seq<Seq<char>>,
    b: Seq<Seq<char>>,
    both: bool,
    slug: Seq<char>,
)
    ensures
        shared(a, b, both).contains(slug) <==> a.contains(slug) && b.contains(slug) == both,
{
    let pred = |s: Seq<char>| b.contains(s) == both;
    let r = a.filter(pred);
    if r.contains(slug) {
        let i = choose|i: int| 0 <= i < r.len() && r[i] == slug;
        a.lemma_filter_pred(pred, i);
        a.lemma_filter_contains_rev(pred, slug);
    }
    if a.contains(slug) && b.contains(slug) == both {
        let i = choose|i: int| 0 <= i < a.len() && a[i] == slug;
        a.lemma_filter_contains(pred, i);
    }
}

/// The offered slugs are divided, without remainder and without overlap, into those that are
/// installed and those that are not.
#[verifier::spinoff_prover]
pub proof fn diff_divides_the_offer(a: Seq<Seq<char>>, b: Seq<Seq<char>>)
    ensures
        shared(a, b, true).to_multiset().add(shared(a, b, false).to_multiset())
            == a.to_multiset(),
        shared(a, b, true).disjoint(shared(a, b, false)),
    decreases a.len(),
{
    broadcast use vstd::multiset::group_multiset_axioms;
    broadcast use vstd::seq_lib::group_to_multiset_ensures;

    reveal(Seq::filter);
    if a.len() > 0 {
        let init = a.drop_last();
        let last = a.last();
        diff_divides_the_offer(init, b);
        assert(init.push(last) =~= a);
        vstd::seq_lib::to_multiset_build(init, last);
        let x = shared(init, b, true);
        let y = shared(init, b, false);
        vstd::seq_lib::to_multiset_build(x, last);
        vstd::seq_lib::to_multiset_build(y, last);
        assert(shared(a, b, true).to_multiset().add(shared(a, b, false).to_multiset())
            =~= a.to_multiset());
    } else {
        assert(shared(a, b, true).to_multiset().add(shared(a, b, false).to_multiset())
            =~= a.to_multiset());
    }
    let p = shared(a, b, true);
    let q = shared(a, b, false);
    assert forall|i: int, j: int| 0 <= i < p.len() && 0 <= j < q.len() implies p[i] != q[j] by {
        assert(p.contains(p[i]));
        assert(q.contains(q[j]));
        shared_is_membership(a, b, true, p[i]);
        shared_is_membership(a, b, false, q[j]);
    }
}

/// Installing everything that is new leaves nothing new.
pub proof fn nothing_is_new_after_installing_all(a: Seq<Seq<char>>, b: Seq<Seq<char>>)
    ensures
        shared(a, b + shared(a, b, false), false) == Seq::<Seq<char>>::empty(),
{
    let all = b + shared(a, b, false);
    let left = shared(a, all, false);
    if left.len() > 0 {
        let s = left[0];
        assert(left.contains(s));
        shared_is_membership(a, all, false, s);
        shared_is_membership(a, b, false, s);
        if b.contains(s) {
            let i = choose|i: int| 0 <= i < b.len() && b[i] == s;
            assert(all[i] == s);
        } else {
            let n = shared(a, b, false);
            let i = choose|i: int| 0 <= i < n.len() && n[i] == s;
            assert(all[b.len() + i] == s);
        }
    }
    assert(left =~= seq![]);
}

/// The index lists every installed pet, each as often as it is installed.
pub proof fn index_keeps_every_pet(
    pairs: Seq<(Seq<char>, LocalPetModel)>,
    index: Seq<LocalPetModel>,
)
    requires
        indexes(pairs, index),
    ensures
        index.to_multiset() == values_in_order(pairs).to_multiset(),
        index.len() == pairs.len(),
{
    let p = choose|p: Seq<usize>| #[trigger] is_index_order(pairs, index, p);
    arranged_keeps_elements(values_in_order(pairs), p);
}

/// An index has one outcome: the same pets are always listed in the same order.
pub proof fn index_is_unique(
    pairs: Seq<(Seq<char>, LocalPetModel)>,
    x: Seq<LocalPetModel>,
    y: Seq<LocalPetModel>,
)
    requires
        indexes(pairs, x),
        indexes(pairs, y),
    ensures
        x == y,
{
    let p = choose|p: Seq<usize>| #[trigger] is_index_order(pairs, x, p);
    let q = choose|q: Seq<usize>| #[trigger] is_index_order(pairs, y, q);
    lemma_index_order_unique(pairs, x, y, p, q, p.len());
    assert(p =~= p.take(p.len() as int));
    assert(q =~= q.take(p.len() as int));
}

/// Two index orders agree on their first `n` positions.
proof fn lemma_index_order_unique(
    pairs: Seq<(Seq<char>, LocalPetModel)>,
    x: Seq<LocalPetModel>,
    y: Seq<LocalPetModel>,
    p: Seq<usize>,
    q: Seq<usize>,
    n: nat,
)
    requires
        is_index_order(pairs, x, p),
        is_index_order(pairs, y, q),
        n <= p.len(),
    ensures
        p.take(n as int) == q.take(n as int),
    decreases n,
{
    if n > 0 {
        let k = n - 1;
        lemma_index_order_unique(pairs, x, y, p, q, k as nat);
        if p[k] != q[k] {
            // Each order has, further on, what the other has at this position.
            assert(q.contains(p[k]));
            assert(p.contains(q[k]));
            let i = choose|i: int| 0 <= i < q.len() && q[i] == p[k];
            let j = choose|j: int| 0 <= j < p.len() && p[j] == q[k];
            if i < k {
                assert(p.take(k)[i] == q.take(k)[i]);
                assert(p[i] == p[k]);
            }
            if j < k {
                assert(p.take(k)[j] == q.take(k)[j]);
                assert(q[j] == q[k]);
            }
            assert(k < i && k < j);
            let a = lowercase(pairs[p[k] as int].1.display_name);
            let b = lowercase(pairs[q[k] as int].1.display_name);
            assert(text_le(a, b) && (a == b ==> p[k] < p[j]));
            assert(text_le(b, a) && (b == a ==> q[k] < q[i]));
            crate::order::text_le_antisymmetric(a, b);
            assert(false);
        }
        assert(p.take(n as int) =~= p.take(k).push(p[k]));
        assert(q.take(n as int) =~= q.take(k).push(q[k]));
    } else {
        assert(p.take(0) =~= q.take(0));
    }
}

/// An uninstalled pet is not installed, and every other pet stays as it was.
pub proof fn uninstall_removes_only_its_pet(
    m: LocalManifestModel,
    slug: Seq<char>,
    other: Seq<char>,
)
    ensures
        !m.pets.remove(slug).contains_key(slug),
        other != slug ==> m.pets.remove(slug).contains_key(other) == m.pets.contains_key(other),
        other != slug && m.pets.contains_key(other) ==> m.pets.remove(slug)[other]
            == m.pets[other],
{
}

/// A model of a pet that failed has its fields, each as it is.
pub proof fn failed_install_is_modelled_by_its_fields(x: FailedInstall)
    ensures
        x.deep_view().slug == x.slug@,
        x.deep_view().reason == x.reason@,
{
}

/// A model of a report has its fields, each as it is.
pub proof fn install_report_is_modelled_by_its_fields(x: InstallReport)
    ensures
        x.deep_view().added == x.added.deep_view(),
        x.deep_view().skipped == x.skipped.deep_view(),
        x.deep_view().failed == x.failed.deep_view(),
        x.deep_view().total_bytes == x.total_bytes,
        x.deep_view().duration_ms == x.duration_ms,
{
}

/// A slug is as often among the shared ones, or among those that are not, as it is listed, where
/// the other list has it, or has it not; otherwise it is not there.
pub proof fn shared_keeps_how_often(
    a: Seq<Seq<char>>,
    b: Seq<Seq<char>>,
    both: bool,
    slug: Seq<char>,
)
    ensures
        shared(a, b, both).to_multiset().count(slug) == if b.contains(slug) == both {
            a.to_multiset().count(slug)
        } else {
            0
        },
    decreases a.len(),
{
    broadcast use vstd::multiset::group_multiset_axioms;

    reveal(Seq::filter);
    if a.len() > 0 {
        let init = a.drop_last();
        let last = a.last();
        shared_keeps_how_often(init, b, both, slug);
        assert(init.push(last) =~= a);
        vstd::seq_lib::to_multiset_build(init, last);
        vstd::seq_lib::to_multiset_build(shared(init, b, both), last);
    } else {
        vstd::seq_lib::to_multiset_contains(a, slug);
        vstd::seq_lib::to_multiset_contains(shared(a, b, both), slug);
    }
}

/// The report on a difference tells, of each slug, what it should: it is new as often as it is
/// offered where no installed pet has it; it is in both as often as it is offered where one has;
/// and it is only here as often as it is installed where none is offered.
pub proof fn difference_is_told_by_slug(
    r: DiffReport,
    installed: Seq<LocalPetModel>,
    remote: RemoteManifestModel,
    slug: Seq<char>,
)
    requires
        is_difference(r, installed, remote),
    ensures
        ({
            let here = Seq::new(installed.len(), |i: int| installed[i].slug);
            let there = Seq::new(remote.pets.len(), |i: int| remote.pets[i].slug);
            &&& r.new_remote.deep_view().to_multiset().count(slug) == if here.contains(slug) {
                0
            } else {
                there.to_multiset().count(slug)
            }
            &&& r.in_both.deep_view().to_multiset().count(slug) == if here.contains(slug) {
                there.to_multiset().count(slug)
            } else {
                0
            }
            &&& r.only_local.deep_view().to_multiset().count(slug) == if there.contains(slug) {
                0
            } else {
                here.to_multiset().count(slug)
            }
        }),
{
    let here = Seq::new(installed.len(), |i: int| installed[i].slug);
    let there = Seq::new(remote.pets.len(), |i: int| remote.pets[i].slug);
    assert(here =~= local_slugs(installed));
    assert(there =~= remote_slugs(remote.pets));
    shared_keeps_how_often(there, here, false, slug);
    shared_keeps_how_often(there, here, true, slug);
    shared_keeps_how_often(here, there, false, slug);
}

/// The lists of a difference are sorted by their bytes, and its numbers are the one that the
/// remote manifest claims and that of the installed pets.
pub proof fn difference_is_sorted_and_counted(
    r: DiffReport,
    installed: Seq<LocalPetModel>,
    remote: RemoteManifestModel,
    i: int,
    j: int,
)
    requires
        is_difference(r, installed, remote),
        0 <= i < j,
    ensures
        j < r.new_remote@.len() ==> bytes_le(
            vstd::utf8::encode_utf8(r.new_remote@[i]@),
            vstd::utf8::encode_utf8(r.new_remote@[j]@),
        ),
        j < r.in_both@.len() ==> bytes_le(
            vstd::utf8::encode_utf8(r.in_both@[i]@),
            vstd::utf8::encode_utf8(r.in_both@[j]@),
        ),
        j < r.only_local@.len() ==> bytes_le(
            vstd::utf8::encode_utf8(r.only_local@[i]@),
            vstd::utf8::encode_utf8(r.only_local@[j]@),
        ),
        r.total_remote == remote.total,
        installed.len() <= u32::MAX ==> r.total_local == installed.len(),
{
    let a = r.new_remote.deep_view();
    let b = r.in_both.deep_view();
    let c = r.only_local.deep_view();
    if j < a.len() {
        assert(text_le(a[i], a[j]));
    }
    if j < b.len() {
        assert(text_le(b[i], b[j]));
    }
    if j < c.len() {
        assert(text_le(c[i], c[j]));
    }
}

/// Slugs are those of the pets, one by one.
pub proof fn slugs_are_those_of_the_pets(
    here: Seq<LocalPetModel>,
    there: Seq<RemotePetModel>,
    failed: Seq<FailedInstallModel>,
    i: int,
)
    ensures
        local_slugs(here).len() == here.len(),
        0 <= i < here.len() ==> local_slugs(here)[i] == here[i].slug,
        remote_slugs(there).len() == there.len(),
        0 <= i < there.len() ==> remote_slugs(there)[i] == there[i].slug,
        failed_slugs(failed).len() == failed.len(),
        0 <= i < failed.len() ==> failed_slugs(failed)[i] == failed[i].slug,
{
}

/// The index stands in the order of the display names without regard to case; pets whose names
/// agree so stand as their slugs do.
pub proof fn index_is_in_order_of_names(
    pairs: Seq<(Seq<char>, LocalPetModel)>,
    index: Seq<LocalPetModel>,
    i: int,
    j: int,
)
    requires
        indexes(pairs, index),
        0 <= i < j < index.len(),
    ensures
        bytes_le(
            vstd::utf8::encode_utf8(lowercase(index[i].display_name)),
            vstd::utf8::encode_utf8(lowercase(index[j].display_name)),
        ),
        exists|a: int, b: int|
            #![trigger pairs[a], pairs[b]]
            {
                &&& 0 <= a < pairs.len()
                &&& 0 <= b < pairs.len()
                &&& index[i] == pairs[a].1
                &&& index[j] == pairs[b].1
                &&& a != b
                &&& lowercase(index[i].display_name) == lowercase(index[j].display_name) ==> a < b
            },
{
    let p = choose|p: Seq<usize>| #[trigger] is_index_order(pairs, index, p);
    let a = p[i] as int;
    let b = p[j] as int;
    assert(index[i] == pairs[a].1 && index[j] == pairs[b].1);
}

/// The index has as many pets as are installed, and each of them is an installed one.
pub proof fn index_has_the_installed_pets(
    pairs: Seq<(Seq<char>, LocalPetModel)>,
    index: Seq<LocalPetModel>,
    pet: LocalPetModel,
)
    requires
        indexes(pairs, index),
    ensures
        index.len() == pairs.len(),
        index.contains(pet) <==> exists|k: int| 0 <= k < pairs.len() && (#[trigger] pairs[k]).1
            == pet,
{
    let p = choose|p: Seq<usize>| #[trigger] is_index_order(pairs, index, p);
    if index.contains(pet) {
        let i = choose|i: int| 0 <= i < index.len() && index[i] == pet;
        assert(p[i] < pairs.len());
        assert(pairs[p[i] as int].1 == pet);
    }
    if exists|k: int| 0 <= k < pairs.len() && (#[trigger] pairs[k]).1 == pet {
        let k = choose|k: int| 0 <= k < pairs.len() && (#[trigger] pairs[k]).1 == pet;
        assert(p.contains(k as usize));
        let i = choose|i: int| 0 <= i < p.len() && p[i] == k as usize;
        assert(index[i] == pet);
    }
}

/// The values of pairs are those of the pairs, one by one.
pub proof fn values_stand_as_their_pairs(pairs: Seq<(Seq<char>, LocalPetModel)>, i: int)
    ensures
        values_in_order(pairs).len() == pairs.len(),
        0 <= i < pairs.len() ==> values_in_order(pairs)[i] == pairs[i].1,
{
}

} // verus!
