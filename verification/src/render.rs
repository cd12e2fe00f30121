use vstd::prelude::*;

use crate::parser::{classify, host_chars_ok, parse_doc, parse_lines, LineKind, ParseIssue};
use vstd::string::StringExecFns;

use crate::text::{
    chop_cr, is_host_char, is_space_char, join_lines, lemma_join_append, lemma_strip_comment_id,
    lemma_trimmed_id, no_marker_before, strip_comment, trimmed,
};
use crate::types::{
    Config, Header, HeaderView, PackageSource, PackageView, SectionView,
};

verus! {

// Serialization of a document back to manifest text, and the round-trip
// argument: a document of valid tokens, rendered and re-parsed, comes
// back unchanged.

/// The manifest line that declares a scope.
pub open spec fn header_line(h: HeaderView) -> Seq<char> {
    match h {
        HeaderView::All => "## *"@,
        HeaderView::Hostname(host) => "## @"@ + host,
    }
}

/// The manifest line that declares an entry.
pub open spec fn entry_line(p: PackageView) -> Seq<char> {
    if p.source == PackageSource::Aur {
        "aur:"@ + p.name
    } else {
        p.name
    }
}

/// The lines of one section: its header, then its entries.
pub open spec fn section_lines(s: SectionView) -> Seq<Seq<char>> {
    seq![header_line(s.header)] + s.packages.map_values(|p: PackageView| entry_line(p))
}

/// The lines of a whole document.
pub open spec fn config_lines(secs: Seq<SectionView>) -> Seq<Seq<char>>
    decreases secs.len(),
{
    if secs.len() == 0 {
        Seq::empty()
    } else {
        config_lines(secs.drop_last()) + section_lines(secs.last())
    }
}

/// The rendered text of a whole document: each line with a terminator.
pub open spec fn render_config(secs: Seq<SectionView>) -> Seq<char> {
    join_lines(config_lines(secs))
}

/// A hostname the manifest grammar accepts: non-empty, ASCII
/// alphanumeric and hyphens only.
pub open spec fn valid_hostname(h: Seq<char>) -> bool {
    h.len() > 0 && host_chars_ok(h)
}

pub open spec fn valid_header(h: HeaderView) -> bool {
    match h {
        HeaderView::All => true,
        HeaderView::Hostname(host) => valid_hostname(host),
    }
}

/// An entry name that renders to a line which reads back as the same
/// name: non-empty, no whitespace at either end, no newline, no comment
/// marker; and a repository-sourced name must not itself look like a
/// section marker or an `aur:` prefix.
pub open spec fn valid_entry(p: PackageView) -> bool {
    let n = p.name;
    &&& n.len() > 0
    &&& !is_space_char(n[0])
    &&& !is_space_char(n[n.len() - 1])
    &&& no_marker_before(n, n.len() as int)
    &&& (forall|i: int| 0 <= i < n.len() ==> #[trigger] n[i] != '\n')
    &&& (p.source == PackageSource::Official ==> !(n.len() >= 2 && n[0] == '#' && n[1] == '#'))
    &&& (p.source == PackageSource::Official ==> !(n.len() >= 4 && n[0] == 'a' && n[1] == 'u'
        && n[2] == 'r' && n[3] == ':'))
}

pub open spec fn valid_section(s: SectionView) -> bool {
    &&& valid_header(s.header)
    &&& forall|j: int| 0 <= j < s.packages.len() ==> valid_entry(#[trigger] s.packages[j])
}

/// A document made only of valid tokens.
pub open spec fn valid_config(secs: Seq<SectionView>) -> bool {
    forall|i: int| 0 <= i < secs.len() ==> valid_section(#[trigger] secs[i])
}

/// A line that the splitter hands back whole: no newline inside, no
/// carriage return at the end.
pub open spec fn line_wf(l: Seq<char>) -> bool {
    &&& forall|j: int| 0 <= j < l.len() ==> #[trigger] l[j] != '\n'
    &&& chop_cr(l) == l
}

proof fn lemma_header_line_reparses(h: HeaderView)
    requires
        valid_header(h),
    ensures
        classify(header_line(h)) == LineKind::NewSection(h),
        line_wf(header_line(h)),
{
    reveal_strlit("## *");
    reveal_strlit("## @");
    match h {
        HeaderView::All => {
            let l = "## *"@;
            assert(l.len() == 4);
            assert(l[0] == '#' && l[1] == '#' && l[2] == ' ' && l[3] == '*');
            assert forall|j: int| 0 <= j < l.len() && j + 1 < l.len() implies !(#[trigger] l[j]
                == '/' && l[j + 1] == '/') by {}
            lemma_strip_comment_id(l);
            lemma_trimmed_id(l);
            assert(l.skip(3) =~= seq!['*']);
            lemma_trimmed_id(seq!['*']);
            assert(trimmed(l.skip(3)) == seq!['*']);
            assert(classify(l) == LineKind::NewSection(HeaderView::All));
        },
        HeaderView::Hostname(host) => {
            let pre = "## @"@;
            assert(pre.len() == 4);
            assert(pre[0] == '#' && pre[1] == '#' && pre[2] == ' ' && pre[3] == '@');
            let l = pre + host;
            assert forall|m: int| 0 <= m < host.len() implies is_host_char(
                #[trigger] host[m],
            ) by {}
            assert forall|j: int| 0 <= j < l.len() implies #[trigger] l[j] != '\n' && l[j]
                != '/' by {
                if j >= 4 {
                    assert(l[j] == host[j - 4]);
                    assert(is_host_char(host[j - 4]));
                }
            }
            assert forall|j: int| 0 <= j < l.len() && j + 1 < l.len() implies !(#[trigger] l[j]
                == '/' && l[j + 1] == '/') by {}
            lemma_strip_comment_id(l);
            assert(l[l.len() - 1] == host[host.len() - 1]);
            assert(!is_space_char(l[0]));
            assert(!is_space_char(l[l.len() - 1]));
            lemma_trimmed_id(l);
            let hv = l.skip(3);
            assert(hv =~= seq!['@'] + host);
            assert(hv[0] == '@');
            assert(hv[hv.len() - 1] == host[host.len() - 1]);
            lemma_trimmed_id(hv);
            assert(trimmed(l.skip(3)) == hv);
            assert(hv != seq!['*']) by {
                assert(hv.len() >= 2);
            }
            assert(hv.skip(1) =~= host);
            lemma_trimmed_id(host);
            assert(classify(l) == LineKind::NewSection(HeaderView::Hostname(host)));
            assert(chop_cr(l) == l);
        },
    }
}

proof fn lemma_entry_line_reparses(p: PackageView)
    requires
        valid_entry(p),
    ensures
        classify(entry_line(p)) == (LineKind::Entry { name: p.name, source: p.source }),
        line_wf(entry_line(p)),
{
    let n = p.name;
    if p.source == PackageSource::Aur {
        reveal_strlit("aur:");
        let pre = "aur:"@;
        assert(pre.len() == 4);
        assert(pre[0] == 'a' && pre[1] == 'u' && pre[2] == 'r' && pre[3] == ':');
        let l = pre + n;
        assert forall|j: int| 0 <= j < l.len() implies #[trigger] l[j] != '\n' by {
            if j >= 4 {
                assert(l[j] == n[j - 4]);
            }
        }
        assert forall|j: int| 0 <= j < l.len() && j + 1 < l.len() implies !(#[trigger] l[j] == '/'
            && l[j + 1] == '/') by {
            if j >= 4 {
                assert(l[j] == n[j - 4]);
                assert(l[j + 1] == n[j - 3]);
                assert(!(n[j - 4] == '/' && n[j - 3] == '/'));
            }
        }
        lemma_strip_comment_id(l);
        assert(l[l.len() - 1] == n[n.len() - 1]);
        lemma_trimmed_id(l);
        assert(!(l[0] == '#'));
        assert(l.skip(4) =~= n);
        lemma_trimmed_id(n);
        assert(classify(l) == LineKind::Entry { name: n, source: PackageSource::Aur });
        assert(chop_cr(l) == l);
    } else {
        lemma_strip_comment_id(n);
        lemma_trimmed_id(n);
        assert(classify(n) == LineKind::Entry { name: n, source: PackageSource::Official });
        assert(chop_cr(n) == n);
        assert(forall|j: int| 0 <= j < n.len() ==> #[trigger] n[j] != '\n');
    }
}

proof fn lemma_parse_entry_lines(
    prefix: Seq<Seq<char>>,
    secs: Seq<SectionView>,
    pkgs: Seq<PackageView>,
)
    requires
        parse_lines(prefix) == Ok::<Seq<SectionView>, ParseIssue>(secs),
        secs.len() > 0,
        forall|j: int| 0 <= j < pkgs.len() ==> valid_entry(#[trigger] pkgs[j]),
    ensures
        parse_lines(prefix + pkgs.map_values(|p: PackageView| entry_line(p))) == Ok::<
            Seq<SectionView>,
            ParseIssue,
        >(
            secs.update(
                secs.len() - 1,
                SectionView {
                    header: secs.last().header,
                    packages: secs.last().packages + pkgs,
                },
            ),
        ),
    decreases pkgs.len(),
{
    let f = |p: PackageView| entry_line(p);
    if pkgs.len() == 0 {
        assert(prefix + pkgs.map_values(f) =~= prefix);
        assert(secs.update(
            secs.len() - 1,
            SectionView { header: secs.last().header, packages: secs.last().packages + pkgs },
        ) =~~= secs);
    } else {
        let pl = pkgs.drop_last();
        let p = pkgs.last();
        assert forall|j: int| 0 <= j < pl.len() implies valid_entry(#[trigger] pl[j]) by {
            assert(pl[j] == pkgs[j]);
        }
        lemma_parse_entry_lines(prefix, secs, pl);
        let mid = secs.update(
            secs.len() - 1,
            SectionView { header: secs.last().header, packages: secs.last().packages + pl },
        );
        let all = prefix + pkgs.map_values(f);
        assert(all.drop_last() =~= prefix + pl.map_values(f));
        assert(all.last() == entry_line(p));
        lemma_entry_line_reparses(p);
        assert(mid.len() == secs.len());
        assert(mid.last().header == secs.last().header);
        assert(mid.last().packages == secs.last().packages + pl);
        let fin = mid.update(
            mid.len() - 1,
            SectionView {
                header: mid.last().header,
                packages: mid.last().packages.push(PackageView { name: p.name, source: p.source }),
            },
        );
        assert(PackageView { name: p.name, source: p.source } == p);
        assert(parse_lines(all) == Ok::<Seq<SectionView>, ParseIssue>(fin));
        assert(fin =~~= secs.update(
            secs.len() - 1,
            SectionView { header: secs.last().header, packages: secs.last().packages + pkgs },
        )) by {
            assert(pkgs =~= pl.push(p));
            assert((secs.last().packages + pl).push(p) =~= secs.last().packages + pkgs);
        }
    }
}

proof fn lemma_parse_section_lines(prefix: Seq<Seq<char>>, secs: Seq<SectionView>, sv: SectionView)
    requires
        parse_lines(prefix) == Ok::<Seq<SectionView>, ParseIssue>(secs),
        valid_section(sv),
    ensures
        parse_lines(prefix + section_lines(sv)) == Ok::<Seq<SectionView>, ParseIssue>(
            secs.push(sv),
        ),
{
    let hl = header_line(sv.header);
    lemma_header_line_reparses(sv.header);
    let pre2 = prefix + seq![hl];
    assert(pre2.drop_last() =~= prefix);
    assert(pre2.last() == hl);
    let sec0 = SectionView { header: sv.header, packages: Seq::empty() };
    assert(parse_lines(pre2) == Ok::<Seq<SectionView>, ParseIssue>(secs.push(sec0)));
    lemma_parse_entry_lines(pre2, secs.push(sec0), sv.packages);
    assert(prefix + section_lines(sv) =~= pre2 + sv.packages.map_values(
        |p: PackageView| entry_line(p),
    ));
    let mid = secs.push(sec0);
    assert(mid.last() == sec0);
    assert(mid.update(
        mid.len() - 1,
        SectionView { header: sec0.header, packages: sec0.packages + sv.packages },
    ) =~~= secs.push(sv)) by {
        assert(sec0.packages + sv.packages =~= sv.packages);
    }
}

proof fn lemma_parse_config_append(
    prefix: Seq<Seq<char>>,
    secs0: Seq<SectionView>,
    secs: Seq<SectionView>,
)
    requires
        parse_lines(prefix) == Ok::<Seq<SectionView>, ParseIssue>(secs0),
        valid_config(secs),
    ensures
        parse_lines(prefix + config_lines(secs)) == Ok::<Seq<SectionView>, ParseIssue>(
            secs0 + secs,
        ),
    decreases secs.len(),
{
    if secs.len() == 0 {
        assert(prefix + config_lines(secs) =~= prefix);
        assert(secs0 + secs =~= secs0);
    } else {
        assert forall|i: int| 0 <= i < secs.drop_last().len() implies valid_section(
            #[trigger] secs.drop_last()[i],
        ) by {
            assert(secs.drop_last()[i] == secs[i]);
        }
        lemma_parse_config_append(prefix, secs0, secs.drop_last());
        assert(valid_section(secs[secs.len() - 1]));
        lemma_parse_section_lines(
            prefix + config_lines(secs.drop_last()),
            secs0 + secs.drop_last(),
            secs.last(),
        );
        assert(prefix + config_lines(secs) =~= (prefix + config_lines(secs.drop_last()))
            + section_lines(secs.last()));
        assert((secs0 + secs.drop_last()).push(secs.last()) =~= secs0 + secs);
    }
}

proof fn lemma_config_lines_wf(secs: Seq<SectionView>)
    requires
        valid_config(secs),
    ensures
        forall|k: int| 0 <= k < config_lines(secs).len() ==> line_wf(#[trigger] config_lines(secs)[k]),
    decreases secs.len(),
{
    if secs.len() == 0 {
    } else {
        assert forall|i: int| 0 <= i < secs.drop_last().len() implies valid_section(
            #[trigger] secs.drop_last()[i],
        ) by {
            assert(secs.drop_last()[i] == secs[i]);
        }
        lemma_config_lines_wf(secs.drop_last());
        let sv = secs.last();
        assert(valid_section(sv));
        lemma_header_line_reparses(sv.header);
        let sl = section_lines(sv);
        assert forall|k: int| 0 <= k < sl.len() implies line_wf(#[trigger] sl[k]) by {
            if k == 0 {
                assert(sl[k] == header_line(sv.header));
            } else {
                assert(sl[k] == entry_line(sv.packages[k - 1]));
                assert(valid_entry(sv.packages[k - 1]));
                lemma_entry_line_reparses(sv.packages[k - 1]);
            }
        }
        let a = config_lines(secs.drop_last());
        assert forall|k: int| 0 <= k < config_lines(secs).len() implies line_wf(
            #[trigger] config_lines(secs)[k],
        ) by {
            if k < a.len() {
                assert(config_lines(secs)[k] == a[k]);
            } else {
                assert(config_lines(secs)[k] == sl[k - a.len()]);
            }
        }
    }
}

impl Header {
    /// The manifest line that declares this scope.
    pub fn render(&self) -> (r: String)
        ensures
            r@ == header_line(self@),
    {
        match self {
            Header::All => "## *".to_owned(),
            Header::Hostname(h) => {
                let mut s = "## @".to_owned();
                s.append(h.as_str());
                s
            },
        }
    }
}

impl Config {
    /// Render the whole document back to manifest text: each section's
    /// header line, then its entry lines, every line with a terminator.
    #[verifier::loop_isolation(false)]
    pub fn to_text(&self) -> (r: String)
        ensures
            r@ == render_config(self@),
    {
        let mut out = String::new();
        proof {
            reveal_strlit("\n");
            assert("\n"@ =~= seq!['\n']);
            assert(config_lines(self@.take(0)) =~= Seq::<Seq<char>>::empty());
            assert(out@ =~= join_lines(config_lines(self@.take(0))));
        }
        let mut i: usize = 0;
        while i < self.sections.len()
            invariant
                i <= self.sections.len(),
                out@ == join_lines(config_lines(self@.take(i as int))),
            decreases self.sections.len() - i,
        {
            let ghost base = join_lines(config_lines(self@.take(i as int)));
            let ghost sv = self@[i as int];
            let sec = &self.sections[i];
            proof {
                assert(self@.take(i + 1).drop_last() =~= self@.take(i as int));
                assert(self@.take(i + 1).last() == sv);
                lemma_join_append(config_lines(self@.take(i as int)), section_lines(sv));
                let sl = section_lines(sv);
                let entry_ls = sv.packages.map_values(|p: PackageView| entry_line(p));
                assert(sl.first() == header_line(sv.header));
                assert(sl.skip(1) =~= entry_ls);
                assert(join_lines(sl) == header_line(sv.header) + seq!['\n'] + join_lines(
                    entry_ls,
                ));
            }
            let hl = sec.header.render();
            out.append(hl.as_str());
            out.append("\n");
            proof {
                assert(sv.packages.take(0).map_values(|p: PackageView| entry_line(p)) =~= Seq::<
                    Seq<char>,
                >::empty());
                assert(out@ =~= base + header_line(sv.header) + seq!['\n'] + join_lines(
                    sv.packages.take(0).map_values(|p: PackageView| entry_line(p)),
                ));
            }
            let mut j: usize = 0;
            while j < sec.packages.len()
                invariant
                    j <= sec.packages.len(),
                    out@ == base + header_line(sv.header) + seq!['\n'] + join_lines(
                        sv.packages.take(j as int).map_values(|p: PackageView| entry_line(p)),
                    ),
                decreases sec.packages.len() - j,
            {
                let ghost f = |p: PackageView| entry_line(p);
                let ghost pv = sv.packages[j as int];
                let pkg = &sec.packages[j];
                proof {
                    assert(pv == pkg@);
                    assert(sv.packages.take(j + 1).map_values(f) =~= sv.packages.take(
                        j as int,
                    ).map_values(f) + seq![entry_line(pv)]);
                    lemma_join_append(
                        sv.packages.take(j as int).map_values(f),
                        seq![entry_line(pv)],
                    );
                    assert(seq![entry_line(pv)].skip(1) =~= Seq::<Seq<char>>::empty());
                    assert(join_lines(seq![entry_line(pv)]) =~= entry_line(pv) + seq!['\n']);
                }
                match pkg.source {
                    PackageSource::Aur => {
                        out.append("aur:");
                        out.append(pkg.name.as_str());
                    },
                    PackageSource::Official => {
                        out.append(pkg.name.as_str());
                    },
                }
                out.append("\n");
                proof {
                    assert(out@ =~= base + header_line(sv.header) + seq!['\n'] + join_lines(
                        sv.packages.take(j + 1).map_values(f),
                    ));
                }
                j += 1;
            }
            proof {
                assert(sv.packages.take(sec.packages.len() as int) =~= sv.packages);
                assert(out@ =~= join_lines(config_lines(self@.take(i + 1))));
            }
            i += 1;
        }
        proof {
            assert(self@.take(self.sections.len() as int) =~= self@);
        }
        out
    }
}

/// Round trip: a document made only of valid tokens, rendered to
/// manifest text and parsed again, comes back with identical section
/// scopes and identical entry sequences.
pub proof fn lemma_round_trip(secs: Seq<SectionView>)
    requires
        valid_config(secs),
    ensures
        parse_doc(render_config(secs)) == Ok::<Seq<SectionView>, ParseIssue>(secs),
{
    let ls = config_lines(secs);
    lemma_config_lines_wf(secs);
    assert forall|k: int, j: int|
        0 <= k < ls.len() && 0 <= j < ls[k].len() implies #[trigger] ls[k][j] != '\n' by {
        assert(line_wf(ls[k]));
    }
    assert forall|k: int| 0 <= k < ls.len() implies chop_cr(#[trigger] ls[k]) == ls[k] by {
        assert(line_wf(ls[k]));
    }
    crate::text::lemma_split_join(ls);
    assert(parse_lines(Seq::<Seq<char>>::empty()) == Ok::<Seq<SectionView>, ParseIssue>(
        Seq::empty(),
    ));
    lemma_parse_config_append(Seq::empty(), Seq::empty(), secs);
    assert(Seq::<Seq<char>>::empty() + ls =~= ls);
    assert(Seq::<SectionView>::empty() + secs =~= secs);
}

} // verus!
