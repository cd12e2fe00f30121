use vstd::prelude::*;

verus! {

/// Where a package comes from: the official repositories (the default)
/// or the AUR (marked with the `aur:` prefix in the manifest).
#[derive(Debug, Clone, Copy, PartialEq, Eq, Structural)]
pub enum PackageSource {
    Official,
    Aur,
}

/// The scope of a section: every host, or one host named exactly.
#[derive(Debug, Clone)]
pub enum Header {
    All,
    Hostname(String),
}

/// Mathematical model of a `Header`.
#[verifier::ext_equal]
pub enum HeaderView {
    All,
    Hostname(Seq<char>),
}

impl View for Header {
    type V = HeaderView;

    open spec fn view(&self) -> HeaderView {
        match self {
            Header::All => HeaderView::All,
            Header::Hostname(h) => HeaderView::Hostname(h@),
        }
    }
}

impl PartialEq for Header {
    fn eq(&self, other: &Header) -> bool {
        match (self, other) {
            (Header::All, Header::All) => true,
            (Header::Hostname(a), Header::Hostname(b)) => <String as PartialEq>::eq(a, b),
            _ => false,
        }
    }
}

impl vstd::std_specs::cmp::PartialEqSpecImpl for Header {
    open spec fn obeys_eq_spec() -> bool {
        true
    }

    open spec fn eq_spec(&self, other: &Header) -> bool {
        self@ == other@
    }
}

impl Eq for Header {

}

/// One manifest entry: a package name with its source.
#[derive(Debug, Clone)]
pub struct Package {
    pub name: String,
    pub source: PackageSource,
}

/// Mathematical model of a `Package`.
#[verifier::ext_equal]
pub struct PackageView {
    pub name: Seq<char>,
    pub source: PackageSource,
}

impl View for Package {
    type V = PackageView;

    open spec fn view(&self) -> PackageView {
        PackageView { name: self.name@, source: self.source }
    }
}

/// One section of the manifest: a scope and the entries under it, in
/// declaration order.
#[derive(Debug, Clone)]
pub struct Section {
    pub header: Header,
    pub packages: Vec<Package>,
}

/// Mathematical model of a `Section`.
#[verifier::ext_equal]
pub struct SectionView {
    pub header: HeaderView,
    pub packages: Seq<PackageView>,
}

impl View for Section {
    type V = SectionView;

    open spec fn view(&self) -> SectionView {
        SectionView { header: self.header@, packages: self.packages@.map_values(|p: Package| p@) }
    }
}

/// The parsed manifest: its sections in declaration order. Nothing is
/// merged at this stage; merging happens only during selection.
#[derive(Debug, Clone)]
pub struct Config {
    pub sections: Vec<Section>,
}

/// The model of a sequence of sections.
pub open spec fn sections_view(v: Seq<Section>) -> Seq<SectionView> {
    v.map_values(|s: Section| s@)
}

impl View for Config {
    type V = Seq<SectionView>;

    open spec fn view(&self) -> Seq<SectionView> {
        sections_view(self.sections@)
    }
}

/// Total number of entries over all sections of a model.
pub open spec fn total_entry_count(secs: Seq<SectionView>) -> nat
    decreases secs.len(),
{
    if secs.len() == 0 {
        0
    } else {
        total_entry_count(secs.drop_last()) + secs.last().packages.len()
    }
}

impl Config {
    /// How many entries the manifest declares over all its sections,
    /// saturating at the machine limit.
    pub fn total_entries(&self) -> (n: usize)
        ensures
            n == total_entry_count(self@) || (n == usize::MAX && total_entry_count(self@)
                > usize::MAX),
    {
        let mut n: usize = 0;
        let mut i: usize = 0;
        while i < self.sections.len()
            invariant
                i <= self.sections.len(),
                n == total_entry_count(self@.take(i as int)) || (n == usize::MAX
                    && total_entry_count(self@.take(i as int)) > usize::MAX),
            decreases self.sections.len() - i,
        {
            let add_on = self.sections[i].packages.len();
            proof {
                assert(self@.take(i + 1).drop_last() =~= self@.take(i as int));
                assert(self@.take(i + 1).last() == self@[i as int]);
            }
            if n <= usize::MAX - add_on {
                n = n + add_on;
            } else {
                n = usize::MAX;
            }
            i += 1;
        }
        proof {
            assert(self@.take(self.sections.len() as int) =~= self@);
        }
        n
    }
}

} // verus!
