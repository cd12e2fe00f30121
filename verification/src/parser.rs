use vstd::prelude::*;
use vstd::string::StringExecFns;

use crate::error::DpkgError;
use crate::text::{
    chop_cr, exec_is_host_char, exec_strip_comment, exec_trim, is_host_char, lemma_split_first,
    split_lines, strip_comment, trimmed,
};
use crate::types::{
    sections_view, Config, Header, HeaderView, Package, PackageSource, PackageView, Section,
    SectionView,
};

verus! {

/// The ways a single manifest line can be malformed.
#[derive(Debug, Clone, Copy, PartialEq, Eq, Structural)]
pub enum ParseFault {
    MissingSpaceAfterMarker,
    UnknownHeaderForm,
    EmptyHostname,
    HostnameBadChar,
    EmptyAurName,
    EntryBeforeSection,
}

/// A parse failure: the 1-indexed line it is pinned to, what went wrong
/// there, and the message reported for it.
#[verifier::ext_equal]
pub struct ParseIssue {
    pub line: nat,
    pub fault: ParseFault,
    pub message: Seq<char>,
}

/// What one line means on its own, before the running document state is
/// consulted.
pub enum LineKind {
    Blank,
    NewSection(HeaderView),
    HeaderFault(ParseFault),
    Entry { name: Seq<char>, source: PackageSource },
    EmptyAur,
}

/// Every character of `s` is allowed in a hostname.
pub open spec fn host_chars_ok(s: Seq<char>) -> bool {
    forall|i: int| 0 <= i < s.len() ==> is_host_char(#[trigger] s[i])
}

/// The meaning of one raw line: strip the comment, trim, then read it as
/// a blank line, a section header (`##` + one space + `*` or
/// `@hostname`) or an entry (`aur:`-prefixed or plain).
pub open spec fn classify(raw: Seq<char>) -> LineKind {
    let t = trimmed(strip_comment(raw));
    if t.len() == 0 {
        LineKind::Blank
    } else if t.len() >= 2 && t[0] == '#' && t[1] == '#' {
        if !(t.len() >= 3 && t[2] == ' ') {
            LineKind::HeaderFault(ParseFault::MissingSpaceAfterMarker)
        } else {
            let hv = trimmed(t.skip(3));
            if hv == seq!['*'] {
                LineKind::NewSection(HeaderView::All)
            } else if hv.len() >= 1 && hv[0] == '@' {
                let host = trimmed(hv.skip(1));
                if host.len() == 0 {
                    LineKind::HeaderFault(ParseFault::EmptyHostname)
                } else if !host_chars_ok(host) {
                    LineKind::HeaderFault(ParseFault::HostnameBadChar)
                } else {
                    LineKind::NewSection(HeaderView::Hostname(host))
                }
            } else {
                LineKind::HeaderFault(ParseFault::UnknownHeaderForm)
            }
        }
    } else if t.len() >= 4 && t[0] == 'a' && t[1] == 'u' && t[2] == 'r' && t[3] == ':' {
        let name = trimmed(t.skip(4));
        if name.len() == 0 {
            LineKind::EmptyAur
        } else {
            LineKind::Entry { name, source: PackageSource::Aur }
        }
    } else {
        LineKind::Entry { name: t, source: PackageSource::Official }
    }
}

/// Folding one line into the document built so far. `ln` is the line's
/// 1-indexed number, used when the line is in error. An entry line needs
/// an open section; an `aur:` line with an empty name is reported as
/// such only once a section is open, exactly as an entry would be.
pub open spec fn apply_line(secs: Seq<SectionView>, raw: Seq<char>, ln: nat) -> Result<
    Seq<SectionView>,
    ParseIssue,
> {
    match classify(raw) {
        LineKind::Blank => Ok(secs),
        LineKind::NewSection(h) => Ok(
            secs.push(SectionView { header: h, packages: Seq::empty() }),
        ),
        LineKind::HeaderFault(f) => Err(
            ParseIssue { line: ln, fault: f, message: fault_message(f, raw) },
        ),
        LineKind::Entry { name, source } => {
            if secs.len() == 0 {
                Err(
                    ParseIssue {
                        line: ln,
                        fault: ParseFault::EntryBeforeSection,
                        message: fault_message(ParseFault::EntryBeforeSection, raw),
                    },
                )
            } else {
                Ok(
                    secs.update(
                        secs.len() - 1,
                        SectionView {
                            header: secs.last().header,
                            packages: secs.last().packages.push(
                                PackageView { name, source },
                            ),
                        },
                    ),
                )
            }
        },
        LineKind::EmptyAur => {
            if secs.len() == 0 {
                Err(
                    ParseIssue {
                        line: ln,
                        fault: ParseFault::EntryBeforeSection,
                        message: fault_message(ParseFault::EntryBeforeSection, raw),
                    },
                )
            } else {
                Err(
                    ParseIssue {
                        line: ln,
                        fault: ParseFault::EmptyAurName,
                        message: fault_message(ParseFault::EmptyAurName, raw),
                    },
                )
            }
        },
    }
}

/// Folding a whole sequence of lines, stopping at the first error.
pub open spec fn parse_lines(lines: Seq<Seq<char>>) -> Result<Seq<SectionView>, ParseIssue>
    decreases lines.len(),
{
    if lines.len() == 0 {
        Ok(Seq::empty())
    } else {
        match parse_lines(lines.drop_last()) {
            Ok(secs) => apply_line(secs, lines.last(), lines.len() as nat),
            Err(e) => Err(e),
        }
    }
}

/// What parsing a whole manifest text means.
pub open spec fn parse_doc(text: Seq<char>) -> Result<Seq<SectionView>, ParseIssue> {
    parse_lines(split_lines(text))
}

/// The message reported for each fault on a given raw line. A header
/// fault echoes the offending line (comment-stripped and trimmed); an
/// invalid hostname is named in its report.
pub open spec fn fault_message(f: ParseFault, raw: Seq<char>) -> Seq<char> {
    let t = trimmed(strip_comment(raw));
    let host = trimmed(trimmed(t.skip(3)).skip(1));
    match f {
        ParseFault::MissingSpaceAfterMarker => "Invalid section header: `"@ + t
            + "`\n  Expected: ## * or ## @<hostname>\n  Hint: Section headers must have a space after ##"@,
        ParseFault::UnknownHeaderForm => "Invalid section header: `"@ + t
            + "`\n  Expected: ## * or ## @<hostname>"@,
        ParseFault::EmptyHostname => "Empty hostname in section header"@,
        ParseFault::HostnameBadChar => "Invalid hostname `"@ + host
            + "`: only alphanumeric characters and hyphens are allowed"@,
        ParseFault::EmptyAurName => "Empty AUR package name after `aur:` prefix"@,
        ParseFault::EntryBeforeSection => "Package found before any section header"@,
    }
}

/// Once a prefix of the lines is in error, the whole sequence parses to
/// that same error: parsing stops at the first failure.
pub proof fn lemma_parse_error_persists(lines: Seq<Seq<char>>, m: int)
    requires
        0 <= m <= lines.len(),
        parse_lines(lines.take(m)) is Err,
    ensures
        parse_lines(lines) == parse_lines(lines.take(m)),
    decreases lines.len() - m,
{
    if m == lines.len() {
        assert(lines.take(m) =~= lines);
    } else {
        assert(lines.drop_last().take(m) =~= lines.take(m));
        lemma_parse_error_persists(lines.drop_last(), m);
    }
}

/// A section header whose marker is not followed by the required single
/// space fails the parse, pinned to exactly that line, as long as every
/// line before it went through.
pub proof fn lemma_header_space_error(lines: Seq<Seq<char>>, k: int)
    requires
        0 <= k < lines.len(),
        parse_lines(lines.take(k)) is Ok,
        ({
            let t = trimmed(strip_comment(lines[k]));
            t.len() >= 2 && t[0] == '#' && t[1] == '#' && !(t.len() >= 3 && t[2] == ' ')
        }),
    ensures
        parse_lines(lines) == Err::<Seq<SectionView>, ParseIssue>(
            ParseIssue {
                line: (k + 1) as nat,
                fault: ParseFault::MissingSpaceAfterMarker,
                message: fault_message(ParseFault::MissingSpaceAfterMarker, lines[k]),
            },
        ),
{
    assert(classify(lines[k]) == LineKind::HeaderFault(ParseFault::MissingSpaceAfterMarker));
    assert(lines.take(k + 1).drop_last() =~= lines.take(k));
    assert(lines.take(k + 1).last() == lines[k]);
    assert(parse_lines(lines.take(k + 1)) == Err::<Seq<SectionView>, ParseIssue>(
        ParseIssue {
            line: (k + 1) as nat,
            fault: ParseFault::MissingSpaceAfterMarker,
            message: fault_message(ParseFault::MissingSpaceAfterMarker, lines[k]),
        },
    ));
    lemma_parse_error_persists(lines, k + 1);
}

/// A host-scoped header whose hostname holds a character outside the
/// allowed set fails the parse, pinned to exactly that line, with a
/// message distinct from the empty-hostname report, as long as every
/// line before it went through.
pub proof fn lemma_bad_hostname_error(lines: Seq<Seq<char>>, k: int)
    requires
        0 <= k < lines.len(),
        parse_lines(lines.take(k)) is Ok,
        ({
            let t = trimmed(strip_comment(lines[k]));
            let hv = trimmed(t.skip(3));
            let host = trimmed(hv.skip(1));
            t.len() >= 3 && t[0] == '#' && t[1] == '#' && t[2] == ' ' && hv != seq!['*']
                && hv.len() >= 1 && hv[0] == '@' && host.len() > 0 && !host_chars_ok(host)
        }),
    ensures
        parse_lines(lines) == Err::<Seq<SectionView>, ParseIssue>(
            ParseIssue {
                line: (k + 1) as nat,
                fault: ParseFault::HostnameBadChar,
                message: fault_message(ParseFault::HostnameBadChar, lines[k]),
            },
        ),
        fault_message(ParseFault::HostnameBadChar, lines[k]) != fault_message(
            ParseFault::EmptyHostname,
            lines[k],
        ),
{
    assert(classify(lines[k]) == LineKind::HeaderFault(ParseFault::HostnameBadChar));
    assert(lines.take(k + 1).drop_last() =~= lines.take(k));
    assert(lines.take(k + 1).last() == lines[k]);
    assert(parse_lines(lines.take(k + 1)) == Err::<Seq<SectionView>, ParseIssue>(
        ParseIssue {
            line: (k + 1) as nat,
            fault: ParseFault::HostnameBadChar,
            message: fault_message(ParseFault::HostnameBadChar, lines[k]),
        },
    ));
    lemma_parse_error_persists(lines, k + 1);
    reveal_strlit("Invalid hostname `");
    reveal_strlit("Empty hostname in section header");
    assert(fault_message(ParseFault::HostnameBadChar, lines[k])[0] == 'I');
    assert(fault_message(ParseFault::EmptyHostname, lines[k])[0] == 'E');
}

/// One line read into executable form; a header fault carries its
/// report, built where the offending text is at hand.
pub enum LineAction {
    Blank,
    NewSection(Header),
    HeaderFault(ParseFault, String),
    Entry(Package),
    EmptyAur,
}

impl View for LineAction {
    type V = LineKind;

    open spec fn view(&self) -> LineKind {
        match self {
            LineAction::Blank => LineKind::Blank,
            LineAction::NewSection(h) => LineKind::NewSection(h@),
            LineAction::HeaderFault(f, _) => LineKind::HeaderFault(*f),
            LineAction::Entry(p) => LineKind::Entry { name: p.name@, source: p.source },
            LineAction::EmptyAur => LineKind::EmptyAur,
        }
    }
}

#[verifier::loop_isolation(false)]
fn classify_exec(raw: &str) -> (action: LineAction)
    ensures
        action@ == classify(raw@),
        action matches LineAction::HeaderFault(f, m) ==> m@ == fault_message(f, raw@),
{
    let stripped = exec_strip_comment(raw);
    let t = exec_trim(stripped);
    let tn = t.unicode_len();
    if tn == 0 {
        return LineAction::Blank;
    }
    if tn >= 2 && t.get_char(0) == '#' && t.get_char(1) == '#' {
        if !(tn >= 3 && t.get_char(2) == ' ') {
            let mut m = "Invalid section header: `".to_owned();
            m.append(t);
            m.append(
                "`\n  Expected: ## * or ## @<hostname>\n  Hint: Section headers must have a space after ##",
            );
            return LineAction::HeaderFault(ParseFault::MissingSpaceAfterMarker, m);
        }
        let hv = exec_trim(t.substring_char(3, tn));
        proof {
            assert(t@.subrange(3, tn as int) =~= t@.skip(3));
        }
        let hn = hv.unicode_len();
        if hn == 1 && hv.get_char(0) == '*' {
            proof {
                assert(hv@ =~= seq!['*']);
            }
            return LineAction::NewSection(Header::All);
        }
        proof {
            assert(hv@ != seq!['*']) by {
                if hv@ == seq!['*'] {
                    assert(hv@.len() == 1);
                    assert(hv@[0] == '*');
                }
            }
        }
        if hn >= 1 && hv.get_char(0) == '@' {
            let host = exec_trim(hv.substring_char(1, hn));
            proof {
                assert(hv@.subrange(1, hn as int) =~= hv@.skip(1));
            }
            let hostn = host.unicode_len();
            if hostn == 0 {
                return LineAction::HeaderFault(
                    ParseFault::EmptyHostname,
                    "Empty hostname in section header".to_owned(),
                );
            }
            let mut i: usize = 0;
            while i < hostn
                invariant
                    hostn == host@.len(),
                    i <= hostn,
                    forall|j: int| 0 <= j < i ==> is_host_char(#[trigger] host@[j]),
                decreases hostn - i,
            {
                if !exec_is_host_char(host.get_char(i)) {
                    proof {
                        assert(!is_host_char(host@[i as int]));
                        assert(!host_chars_ok(host@));
                    }
                    let mut m = "Invalid hostname `".to_owned();
                    m.append(host);
                    m.append("`: only alphanumeric characters and hyphens are allowed");
                    return LineAction::HeaderFault(ParseFault::HostnameBadChar, m);
                }
                i += 1;
            }
            return LineAction::NewSection(Header::Hostname(host.to_owned()));
        }
        let mut m = "Invalid section header: `".to_owned();
        m.append(t);
        m.append("`\n  Expected: ## * or ## @<hostname>");
        return LineAction::HeaderFault(ParseFault::UnknownHeaderForm, m);
    }
    if tn >= 4 && t.get_char(0) == 'a' && t.get_char(1) == 'u' && t.get_char(2) == 'r'
        && t.get_char(3) == ':' {
        let name = exec_trim(t.substring_char(4, tn));
        proof {
            assert(t@.subrange(4, tn as int) =~= t@.skip(4));
        }
        if name.unicode_len() == 0 {
            return LineAction::EmptyAur;
        }
        return LineAction::Entry(Package { name: name.to_owned(), source: PackageSource::Aur });
    }
    LineAction::Entry(Package { name: t.to_owned(), source: PackageSource::Official })
}

/// Index of the first newline at or after `from`, or `n` when none is
/// left.
fn find_newline(s: &str, from: usize, n: usize) -> (j: usize)
    requires
        n == s@.len(),
        from <= n,
    ensures
        from <= j <= n,
        forall|m: int| from <= m < j ==> s@[m] != '\n',
        j < n ==> s@[j as int] == '\n',
{
    let mut j = from;
    while j < n
        invariant
            n == s@.len(),
            from <= j <= n,
            forall|m: int| from <= m < j ==> s@[m] != '\n',
        decreases n - j,
    {
        if s.get_char(j) == '\n' {
            return j;
        }
        j += 1;
    }
    j
}

/// Parse a whole manifest text into a `Config`. The result is exactly
/// what `parse_doc` says of the text: the sections with their entries in
/// declaration order, or the first error, pinned to its 1-indexed line
/// and carrying the message reported for its fault on that line.
#[verifier::rlimit(100)]
pub fn parse_config_str(input: &str) -> (r: Result<Config, DpkgError>)
    ensures
        match r {
            Ok(c) => parse_doc(input@) == Ok::<Seq<SectionView>, ParseIssue>(c@),
            Err(e) => parse_doc(input@) is Err && (e matches DpkgError::ConfigParse {
                line,
                message,
            } && line == parse_doc(input@)->Err_0.line && message@ == parse_doc(
                input@,
            )->Err_0.message),
        },
{
    let ghost lines: Seq<Seq<char>> = split_lines(input@);
    let n = input.unicode_len();
    let mut sections: Vec<Section> = Vec::new();
    let mut pos: usize = 0;
    let mut line_no: usize = 0;
    let ghost mut k: int = 0;
    proof {
        assert(input@.skip(0) =~= input@);
        assert(lines.take(0) =~= Seq::<Seq<char>>::empty());
        assert(lines.take(0) + lines =~= lines);
        assert(sections_view(sections@) =~= Seq::<SectionView>::empty());
    }
    while pos < n
        invariant
            n == input@.len(),
            pos <= n,
            line_no <= pos,
            line_no == k,
            0 <= k <= lines.len(),
            lines == split_lines(input@),
            lines == lines.take(k) + split_lines(input@.skip(pos as int)),
            parse_lines(lines.take(k)) == Ok::<Seq<SectionView>, ParseIssue>(
                sections_view(sections@),
            ),
        decreases n - pos,
    {
        let j = find_newline(input, pos, n);
        let chop = j < n && j > pos && input.get_char(j - 1) == '\r';
        let line: &str = if chop {
            input.substring_char(pos, j - 1)
        } else {
            input.substring_char(pos, j)
        };
        let new_pos = if j < n {
            j + 1
        } else {
            n
        };
        proof {
            let sub = input@.skip(pos as int);
            let i = j - pos;
            assert(sub.len() == n - pos);
            assert forall|m: int| 0 <= m < i implies sub[m] != '\n' by {
                assert(sub[m] == input@[pos + m]);
                assert(input@[pos + m] != '\n');
            }
            if i < sub.len() {
                assert(sub[i] == input@[j as int]);
            }
            lemma_split_first(sub, i);
            if j < n {
                assert(sub.take(i) =~= input@.subrange(pos as int, j as int));
                assert(sub.skip(i + 1) =~= input@.skip(new_pos as int));
                if chop {
                    assert(sub.take(i).last() == '\r');
                    assert(chop_cr(sub.take(i)) =~= input@.subrange(pos as int, j - 1));
                } else {
                    assert(chop_cr(sub.take(i)) == sub.take(i));
                }
                assert(split_lines(sub) == seq![line@] + split_lines(input@.skip(new_pos as int)));
            } else {
                assert(line@ =~= sub);
                assert(input@.skip(new_pos as int) =~= Seq::<char>::empty());
                assert(split_lines(sub) == seq![line@] + split_lines(input@.skip(new_pos as int)));
            }
            assert(lines == lines.take(k) + (seq![line@] + split_lines(
                input@.skip(new_pos as int),
            )));
            assert(lines[k] == line@);
            assert(lines.take(k + 1) =~= lines.take(k) + seq![line@]);
            assert(lines =~= lines.take(k + 1) + split_lines(input@.skip(new_pos as int)));
            assert(lines.take(k + 1).drop_last() =~= lines.take(k));
            assert(lines.take(k + 1).last() == line@);
            assert(parse_lines(lines.take(k + 1)) == apply_line(
                sections_view(sections@),
                line@,
                (k + 1) as nat,
            ));
        }
        let action = classify_exec(line);
        match action {
            LineAction::Blank => {},
            LineAction::NewSection(h) => {
                let ghost old_secs = sections@;
                let ghost hv = h@;
                sections.push(Section { header: h, packages: Vec::new() });
                proof {
                    assert(sections_view(sections@) =~~= sections_view(old_secs).push(
                        SectionView { header: hv, packages: Seq::empty() },
                    ));
                }
            },
            LineAction::HeaderFault(_, m) => {
                proof {
                    lemma_parse_error_persists(lines, k + 1);
                }
                return Err(DpkgError::ConfigParse { line: line_no + 1, message: m });
            },
            LineAction::Entry(p) => {
                if sections.len() == 0 {
                    proof {
                        lemma_parse_error_persists(lines, k + 1);
                    }
                    return Err(
                        DpkgError::ConfigParse {
                            line: line_no + 1,
                            message: "Package found before any section header".to_owned(),
                        },
                    );
                }
                let ghost old_secs = sections@;
                let ghost pk: Package = p;
                let mut sec = sections.pop().unwrap();
                let ghost old_sec: Section = sec;
                sec.packages.push(p);
                let ghost new_sec: Section = sec;
                sections.push(sec);
                proof {
                    let ov = sections_view(old_secs);
                    assert(old_sec == old_secs.last());
                    assert(new_sec.packages@ == old_sec.packages@.push(pk));
                    assert(new_sec@.packages =~~= old_sec@.packages.push(pk@));
                    assert(sections@ =~= old_secs.drop_last().push(new_sec));
                    assert(sections_view(sections@) =~~= ov.update(
                        ov.len() - 1,
                        SectionView {
                            header: ov.last().header,
                            packages: ov.last().packages.push(pk@),
                        },
                    ));
                }
            },
            LineAction::EmptyAur => {
                if sections.len() == 0 {
                    proof {
                        lemma_parse_error_persists(lines, k + 1);
                    }
                    return Err(
                        DpkgError::ConfigParse {
                            line: line_no + 1,
                            message: "Package found before any section header".to_owned(),
                        },
                    );
                }
                proof {
                    lemma_parse_error_persists(lines, k + 1);
                }
                return Err(
                    DpkgError::ConfigParse {
                        line: line_no + 1,
                        message: "Empty AUR package name after `aur:` prefix".to_owned(),
                    },
                );
            },
        }
        pos = new_pos;
        line_no = line_no + 1;
        proof {
            k = k + 1;
        }
    }
    proof {
        assert(input@.skip(pos as int) =~= Seq::<char>::empty());
        assert(lines.take(k) =~= lines);
    }
    Ok(Config { sections })
}

} // verus!
