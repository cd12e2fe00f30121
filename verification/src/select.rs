use vstd::prelude::*;

use crate::text::str_eq;
use crate::types::{Config, Header, HeaderView, PackageSource, PackageView, SectionView};

verus! {

/// A section contributes its entries for `host` when its scope is
/// universal or names exactly that host.
pub open spec fn section_applies(s: SectionView, host: Seq<char>) -> bool {
    match s.header {
        HeaderView::All => true,
        HeaderView::Hostname(h) => h == host,
    }
}

/// All entries that the document contributes for `host`, in document
/// order: the entries of every applying section, one section after the
/// other.
pub open spec fn entries_for(secs: Seq<SectionView>, host: Seq<char>) -> Seq<PackageView>
    decreases secs.len(),
{
    if secs.len() == 0 {
        Seq::empty()
    } else {
        entries_for(secs.drop_last(), host) + (if section_applies(secs.last(), host) {
            secs.last().packages
        } else {
            Seq::empty()
        })
    }
}

/// The running state of selection: the names already taken (one set
/// shared by both sources) and the two output orders.
#[verifier::ext_equal]
pub struct SelectionState {
    pub seen: Set<Seq<char>>,
    pub official: Seq<Seq<char>>,
    pub aur: Seq<Seq<char>>,
}

pub open spec fn selection_init() -> SelectionState {
    SelectionState { seen: Set::empty(), official: Seq::empty(), aur: Seq::empty() }
}

/// One entry folded into the state: a name seen before is skipped
/// silently, whatever its source; a new name goes to the list of its
/// source and into the shared set.
pub open spec fn selection_step(st: SelectionState, p: PackageView) -> SelectionState {
    if st.seen.contains(p.name) {
        st
    } else {
        SelectionState {
            seen: st.seen.insert(p.name),
            official: if p.source == PackageSource::Official {
                st.official.push(p.name)
            } else {
                st.official
            },
            aur: if p.source == PackageSource::Aur {
                st.aur.push(p.name)
            } else {
                st.aur
            },
        }
    }
}

/// The state after folding a whole entry sequence, front to back.
pub open spec fn select_from(pkgs: Seq<PackageView>) -> SelectionState
    decreases pkgs.len(),
{
    if pkgs.len() == 0 {
        selection_init()
    } else {
        selection_step(select_from(pkgs.drop_last()), pkgs.last())
    }
}

/// What selection means for a document and a host.
pub open spec fn selected(secs: Seq<SectionView>, host: Seq<char>) -> SelectionState {
    select_from(entries_for(secs, host))
}

/// Some entry of `pkgs` bears the name `x`.
pub open spec fn has_name(pkgs: Seq<PackageView>, x: Seq<char>) -> bool {
    exists|m: int| 0 <= m < pkgs.len() && #[trigger] pkgs[m].name == x
}

/// Collect the two desired package lists for a host: walk the sections
/// in document order, keep the entries of the applying sections, and of
/// entries sharing a name keep only the first, under its first source.
/// Returns the repository-sourced names and the AUR-sourced names.
#[verifier::loop_isolation(false)]
pub fn collect_packages(config: &Config, hostname: &str) -> (r: (Vec<String>, Vec<String>))
    ensures
        r.0.deep_view() == selected(config@, hostname@).official,
        r.1.deep_view() == selected(config@, hostname@).aur,
        forall|a: int, b: int|
            0 <= a < b < r.0.deep_view().len() ==> r.0.deep_view()[a] != r.0.deep_view()[b],
        forall|a: int, b: int|
            0 <= a < b < r.1.deep_view().len() ==> r.1.deep_view()[a] != r.1.deep_view()[b],
        forall|a: int, b: int|
            0 <= a < r.0.deep_view().len() && 0 <= b < r.1.deep_view().len() ==> r.0.deep_view()[a]
                != r.1.deep_view()[b],
{
    proof {
        lemma_selection_no_duplicates(entries_for(config@, hostname@));
    }
    let ghost host = hostname@;
    let mut official: Vec<String> = Vec::new();
    let mut aur: Vec<String> = Vec::new();
    let mut seen: Vec<String> = Vec::new();
    proof {
        assert(entries_for(config@.take(0), host) =~= Seq::<PackageView>::empty());
    }
    let mut i: usize = 0;
    while i < config.sections.len()
        invariant
            i <= config.sections.len(),
            official.deep_view() == select_from(entries_for(config@.take(i as int), host)).official,
            aur.deep_view() == select_from(entries_for(config@.take(i as int), host)).aur,
            forall|x: Seq<char>|
                seen.deep_view().contains(x) <==> select_from(
                    entries_for(config@.take(i as int), host),
                ).seen.contains(x),
        decreases config.sections.len() - i,
    {
        let ghost done = entries_for(config@.take(i as int), host);
        let sec = &config.sections[i];
        let applies = match &sec.header {
            Header::All => true,
            Header::Hostname(h) => str_eq(h.as_str(), hostname),
        };
        proof {
            assert(config@.take(i + 1).drop_last() =~= config@.take(i as int));
            assert(config@.take(i + 1).last() == config@[i as int]);
            assert(applies == section_applies(config@[i as int], host));
        }
        if applies {
            let mut j: usize = 0;
            while j < sec.packages.len()
                invariant
                    j <= sec.packages.len(),
                    official.deep_view() == select_from(
                        done + config@[i as int].packages.take(j as int),
                    ).official,
                    aur.deep_view() == select_from(
                        done + config@[i as int].packages.take(j as int),
                    ).aur,
                    forall|x: Seq<char>|
                        seen.deep_view().contains(x) <==> select_from(
                            done + config@[i as int].packages.take(j as int),
                        ).seen.contains(x),
                decreases sec.packages.len() - j,
            {
                let ghost cur = done + config@[i as int].packages.take(j as int);
                let ghost pv = config@[i as int].packages[j as int];
                let pkg = &sec.packages[j];
                proof {
                    assert(pv == pkg@);
                    assert(done + config@[i as int].packages.take(j + 1) =~= cur.push(pv));
                    assert(cur.push(pv).drop_last() =~= cur);
                }
                let already = vec_contains_string(&seen, &pkg.name);
                if already {
                    proof {
                        assert(select_from(cur).seen.contains(pv.name));
                        assert(select_from(cur.push(pv)) == select_from(cur));
                    }
                } else {
                    let ghost old_official = official.deep_view();
                    let ghost old_aur = aur.deep_view();
                    let ghost old_seen = seen.deep_view();
                    seen.push(pkg.name.clone());
                    match pkg.source {
                        PackageSource::Official => {
                            official.push(pkg.name.clone());
                            proof {
                                assert(official.deep_view() =~= old_official.push(pv.name));
                                assert(aur.deep_view() =~= old_aur);
                            }
                        },
                        PackageSource::Aur => {
                            aur.push(pkg.name.clone());
                            proof {
                                assert(aur.deep_view() =~= old_aur.push(pv.name));
                                assert(official.deep_view() =~= old_official);
                            }
                        },
                    }
                    proof {
                        let st = select_from(cur);
                        assert(!st.seen.contains(pv.name));
                        assert(select_from(cur.push(pv)) == selection_step(st, pv));
                        assert(seen.deep_view() =~= old_seen.push(pv.name));
                        assert forall|x: Seq<char>|
                            seen.deep_view().contains(x) <==> selection_step(
                                st,
                                pv,
                            ).seen.contains(x) by {
                            if seen.deep_view().contains(x) {
                                let m = choose|m: int|
                                    0 <= m < seen.deep_view().len() && seen.deep_view()[m] == x;
                                if m < old_seen.len() {
                                    assert(old_seen[m] == x);
                                    assert(old_seen.contains(x));
                                } else {
                                    assert(x == pv.name);
                                }
                            }
                            if selection_step(st, pv).seen.contains(x) {
                                if st.seen.contains(x) {
                                    assert(old_seen.contains(x));
                                    let m = choose|m: int|
                                        0 <= m < old_seen.len() && old_seen[m] == x;
                                    assert(seen.deep_view()[m] == x);
                                } else {
                                    assert(x == pv.name);
                                    assert(seen.deep_view()[old_seen.len() as int] == x);
                                }
                            }
                        }
                    }
                }
                j += 1;
            }
            proof {
                assert(done + config@[i as int].packages.take(sec.packages.len() as int) =~= entries_for(
                    config@.take(i + 1),
                    host,
                ));
            }
        } else {
            proof {
                assert(done + Seq::<PackageView>::empty() =~= done);
                assert(entries_for(config@.take(i + 1), host) =~= done);
            }
        }
        i += 1;
    }
    proof {
        assert(config@.take(config.sections.len() as int) =~= config@);
    }
    (official, aur)
}

/// Linear scan for a name among those already taken.
pub(crate) fn vec_contains_string(v: &Vec<String>, s: &String) -> (b: bool)
    ensures
        b == v.deep_view().contains(s@),
{
    let mut i: usize = 0;
    while i < v.len()
        invariant
            i <= v.len(),
            forall|j: int| 0 <= j < i ==> v.deep_view()[j] != s@,
        decreases v.len() - i,
    {
        if <String as PartialEq>::eq(&v[i], s) {
            proof {
                assert(v.deep_view()[i as int] == s@);
            }
            return true;
        }
        i += 1;
    }
    false
}

/// Selection never repeats a name: each output order is free of
/// duplicates, no name stands in both, everything returned was seen, and
/// a name was seen exactly when some entry bears it.
pub proof fn lemma_selection_no_duplicates(pkgs: Seq<PackageView>)
    ensures
        ({
            let st = select_from(pkgs);
            &&& forall|x: Seq<char>| #[trigger] st.seen.contains(x) <==> has_name(pkgs, x)
            &&& forall|a: int, b: int|
                0 <= a < b < st.official.len() ==> st.official[a] != st.official[b]
            &&& forall|a: int, b: int| 0 <= a < b < st.aur.len() ==> st.aur[a] != st.aur[b]
            &&& forall|a: int, b: int|
                0 <= a < st.official.len() && 0 <= b < st.aur.len() ==> st.official[a]
                    != st.aur[b]
            &&& forall|a: int|
                0 <= a < st.official.len() ==> st.seen.contains(#[trigger] st.official[a])
            &&& forall|a: int| 0 <= a < st.aur.len() ==> st.seen.contains(#[trigger] st.aur[a])
        }),
    decreases pkgs.len(),
{
    if pkgs.len() == 0 {
    } else {
        lemma_selection_no_duplicates(pkgs.drop_last());
        let prev = select_from(pkgs.drop_last());
        let p = pkgs.last();
        let st = select_from(pkgs);
        assert forall|x: Seq<char>| #[trigger] st.seen.contains(x) implies has_name(pkgs, x) by {
            if prev.seen.contains(x) {
                let m = choose|m: int|
                    0 <= m < pkgs.drop_last().len() && #[trigger] pkgs.drop_last()[m].name == x;
                assert(pkgs[m].name == x);
            } else {
                assert(pkgs[pkgs.len() - 1].name == x);
            }
        }
        assert forall|x: Seq<char>| has_name(pkgs, x) implies #[trigger] st.seen.contains(x) by {
            let m = choose|m: int| 0 <= m < pkgs.len() && #[trigger] pkgs[m].name == x;
            if m < pkgs.len() - 1 {
                assert(pkgs.drop_last()[m].name == x);
                assert(has_name(pkgs.drop_last(), x));
            }
        }
    }
}

/// The entries that survive deduplication: of entries sharing a name,
/// only the earliest stays, at its place in document order.
pub open spec fn first_occurrences(pkgs: Seq<PackageView>) -> Seq<PackageView>
    decreases pkgs.len(),
{
    if pkgs.len() == 0 {
        Seq::empty()
    } else if has_name(pkgs.drop_last(), pkgs.last().name) {
        first_occurrences(pkgs.drop_last())
    } else {
        first_occurrences(pkgs.drop_last()).push(pkgs.last())
    }
}

/// Selection preserves first-seen document order and the first-seen
/// source: each output is exactly the names of the surviving first
/// occurrences with that source, in document order.
pub proof fn lemma_selection_order(pkgs: Seq<PackageView>)
    ensures
        select_from(pkgs).official == first_occurrences(pkgs).filter(
            |p: PackageView| p.source == PackageSource::Official,
        ).map_values(|p: PackageView| p.name),
        select_from(pkgs).aur == first_occurrences(pkgs).filter(
            |p: PackageView| p.source == PackageSource::Aur,
        ).map_values(|p: PackageView| p.name),
    decreases pkgs.len(),
{
    reveal(Seq::filter);
    let fo = |p: PackageView| p.source == PackageSource::Official;
    let fa = |p: PackageView| p.source == PackageSource::Aur;
    let nm = |p: PackageView| p.name;
    if pkgs.len() == 0 {
        assert(first_occurrences(pkgs).filter(fo) =~= Seq::<PackageView>::empty());
        assert(first_occurrences(pkgs).filter(fa) =~= Seq::<PackageView>::empty());
        assert(Seq::<PackageView>::empty().map_values(nm) =~= Seq::<Seq<char>>::empty());
    } else {
        let rest = pkgs.drop_last();
        let p = pkgs.last();
        lemma_selection_order(rest);
        lemma_selection_no_duplicates(rest);
        let prev = select_from(rest);
        assert(prev.seen.contains(p.name) <==> has_name(rest, p.name));
        if has_name(rest, p.name) {
            assert(select_from(pkgs) == prev);
            assert(first_occurrences(pkgs) == first_occurrences(rest));
        } else {
            let fr = first_occurrences(rest);
            assert(first_occurrences(pkgs) == fr.push(p));
            assert(fr.push(p).drop_last() =~= fr);
            if p.source == PackageSource::Official {
                assert(fr.push(p).filter(fo) == fr.filter(fo).push(p));
                assert(fr.filter(fo).push(p).map_values(nm) =~= fr.filter(fo).map_values(
                    nm,
                ).push(p.name));
                assert(fr.push(p).filter(fa) == fr.filter(fa));
            } else {
                assert(fr.push(p).filter(fa) == fr.filter(fa).push(p));
                assert(fr.filter(fa).push(p).map_values(nm) =~= fr.filter(fa).map_values(
                    nm,
                ).push(p.name));
                assert(fr.push(p).filter(fo) == fr.filter(fo));
            }
        }
    }
}

/// A host with no applying section — no universal section and no section
/// scoped to it — selects nothing: both outputs are empty.
pub proof fn lemma_select_nothing_applies(secs: Seq<SectionView>, host: Seq<char>)
    requires
        forall|i: int| 0 <= i < secs.len() ==> !section_applies(#[trigger] secs[i], host),
    ensures
        selected(secs, host).official == Seq::<Seq<char>>::empty(),
        selected(secs, host).aur == Seq::<Seq<char>>::empty(),
    decreases secs.len(),
{
    if secs.len() == 0 {
    } else {
        assert(!section_applies(secs[secs.len() - 1], host));
        assert forall|i: int| 0 <= i < secs.drop_last().len() implies !section_applies(
            #[trigger] secs.drop_last()[i],
            host,
        ) by {
            assert(secs.drop_last()[i] == secs[i]);
        }
        lemma_select_nothing_applies(secs.drop_last(), host);
        assert(entries_for(secs, host) =~= entries_for(secs.drop_last(), host));
    }
}

} // verus!
