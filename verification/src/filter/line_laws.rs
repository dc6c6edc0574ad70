//! What the lines of filter files and side files mean.

use crate::error::ErrorView;
use crate::filter::laws;
use crate::filter::member::{FilterView, RuleView};
use crate::filter::rsync;
use crate::filter::rsync::{LineView, PatternView};
use crate::util::pathnorm;
use crate::util::text;
use vstd::prelude::*;

verus! {

// ---------------------------------------------------------------------------------------------
// Side files
// ---------------------------------------------------------------------------------------------
/// Law: two parts of a side file, one behind the other, have the patterns of both, in order; and
/// both can be read where the whole can.
pub proof fn law_side_files_add_up(
    x: Seq<Seq<char>>,
    y: Seq<Seq<char>>,
    path: Seq<char>,
    keep: bool,
)
    ensures
        ({
            let a = rsync::side_patterns(x, path, keep);
            let b = rsync::side_patterns(y, path, keep);
            let both = rsync::side_patterns(x + y, path, keep);
            &&& both is Ok <==> a is Ok && b is Ok
            &&& both is Ok ==> both->Ok_0 == a->Ok_0 + b->Ok_0
        }),
    decreases y.len(),
{
    if y.len() == 0 {
        assert(x + y =~= x);
        if rsync::side_patterns(x, path, keep) is Ok {
            let v = rsync::side_patterns(x, path, keep)->Ok_0;
            assert(v + Seq::<PatternView>::empty() =~= v);
        }
    } else {
        let t = y.drop_last();
        assert((x + y).drop_last() =~= x + t);
        assert((x + y).last() == y.last());
        law_side_files_add_up(x, t, path, keep);
        let a = rsync::side_patterns(x, path, keep);
        let b = rsync::side_patterns(t, path, keep);
        if a is Ok && b is Ok {
            let line = rsync::line_body(y.last());
            let (side, pat) = rsync::side_rule(line, keep);
            if rsync::parsed_pattern(pat, side) is Ok {
                let p = rsync::parsed_pattern(pat, side)->Ok_0;
                assert((a->Ok_0 + b->Ok_0).push(p) =~= a->Ok_0 + b->Ok_0.push(p));
            }
        }
    }
}

/// One line alone.
proof fn lemma_one_side_line(line: Seq<char>, path: Seq<char>, keep: bool)
    ensures
        ({
            let r = rsync::side_patterns(seq![line], path, keep);
            let body = rsync::line_body(line);
            let (side, pat) = rsync::side_rule(body, keep);
            &&& body.len() == 0 ==> r == Ok::<Seq<PatternView>, ErrorView>(Seq::empty())
            &&& body.len() > 0 && pat.len() == 0 ==> r is Err
            &&& body.len() > 0 && pat.len() > 0 ==> (r is Ok <==> rsync::parsed_pattern(
                pat,
                side,
            ) is Ok)
            &&& body.len() > 0 && r is Ok ==> r->Ok_0 == seq![
                rsync::parsed_pattern(pat, side)->Ok_0,
            ]
        }),
{
    let one = seq![line];
    assert(one.drop_last() =~= Seq::<Seq<char>>::empty());
    assert(rsync::side_patterns(one.drop_last(), path, keep) == Ok::<Seq<PatternView>, ErrorView>(
        Seq::empty(),
    ));
    let (side, pat) = rsync::side_rule(rsync::line_body(line), keep);
    if rsync::parsed_pattern(pat, side) is Ok {
        let p = rsync::parsed_pattern(pat, side)->Ok_0;
        assert(Seq::<PatternView>::empty().push(p) =~= seq![p]);
    }
}

/// Law: a line of a side file that is a pattern, with neither `+` nor `-` in front, is a rule of the
/// side of the file: it keeps in an include file and drops in an exclude file. A line that begins
/// with `#` or `;` says nothing. White space around a line does not count.
pub proof fn law_side_line_takes_the_side_of_its_file(
    a: Seq<char>,
    pat: Seq<char>,
    b: Seq<char>,
    path: Seq<char>,
    keep: bool,
)
    requires
        text::white(a),
        text::white(b),
        text::bare(pat),
        pat[0] != '+',
        pat[0] != '-',
    ensures
        ({
            let r = rsync::side_patterns(seq![a + pat + b], path, keep);
            let comment = pat[0] == '#' || pat[0] == ';';
            &&& comment ==> r == Ok::<Seq<PatternView>, ErrorView>(Seq::empty())
            &&& !comment ==> {
                &&& r is Ok <==> rsync::parsed_pattern(pat, keep) is Ok
                &&& r is Ok ==> {
                    &&& r->Ok_0.len() == 1
                    &&& r->Ok_0[0].keep == keep
                    &&& r->Ok_0[0].original == pat
                    &&& r->Ok_0[0] == rsync::parsed_pattern(pat, keep)->Ok_0
                }
            }
        }),
{
    text::law_trim_takes_white_space_away(a, pat, b);
    lemma_one_side_line(a + pat + b, path, keep);
}

/// Law: `+` in front of a pattern makes it keep, and `-` makes it drop, whatever the side of the
/// file.
pub proof fn law_sign_overrides_the_side(
    a: Seq<char>,
    plus: bool,
    gap: Seq<char>,
    pat: Seq<char>,
    b: Seq<char>,
    path: Seq<char>,
    keep: bool,
)
    requires
        text::white(a),
        text::white(gap),
        text::white(b),
        text::bare(pat),
    ensures
        ({
            let sign = if plus {
                '+'
            } else {
                '-'
            };
            let r = rsync::side_patterns(seq![a + (seq![sign] + gap + pat) + b], path, keep);
            &&& r is Ok <==> rsync::parsed_pattern(pat, plus) is Ok
            &&& r is Ok ==> r->Ok_0.len() == 1 && r->Ok_0[0].keep == plus && r->Ok_0[0].original
                == pat
        }),
{
    let sign = if plus {
        '+'
    } else {
        '-'
    };
    let body = seq![sign] + gap + pat;
    assert(body[0] == sign && body.last() == pat.last());
    text::law_trim_takes_white_space_away(a, body, b);
    assert(body.skip(1) =~= gap + pat + Seq::empty());
    text::law_trim_takes_white_space_away(gap, pat, Seq::empty());
    lemma_one_side_line(a + body + b, path, keep);
}

/// No line of the file has the sign in front.
pub open spec fn without_sign(lines: Seq<Seq<char>>, sign: char) -> bool {
    forall|i: int|
        0 <= i < lines.len() ==> {
            let t = text::trim(#[trigger] lines[i]);
            t.len() == 0 || t[0] != sign
        }
}

proof fn lemma_all_on_one_side(lines: Seq<Seq<char>>, path: Seq<char>, keep: bool)
    requires
        rsync::side_patterns(lines, path, keep) is Ok,
        without_sign(
            lines,
            if keep {
                '-'
            } else {
                '+'
            },
        ),
    ensures
        forall|i: int|
            0 <= i < rsync::side_patterns(lines, path, keep)->Ok_0.len() ==> (
            #[trigger] rsync::side_patterns(lines, path, keep)->Ok_0[i]).keep == keep,
    decreases lines.len(),
{
    if lines.len() > 0 {
        let t = lines.drop_last();
        let sign = if keep {
            '-'
        } else {
            '+'
        };
        assert forall|i: int| 0 <= i < t.len() implies {
            let u = text::trim(#[trigger] t[i]);
            u.len() == 0 || u[0] != sign
        } by {
            assert(t[i] == lines[i]);
        }
        lemma_all_on_one_side(t, path, keep);
        assert(lines[lines.len() - 1] == lines.last());
        let u = text::trim(lines[lines.len() - 1]);
        assert(u.len() == 0 || u[0] != sign);
    }
}

/// Law: a filter made of an include file in which no line begins with `-` drops no member that has
/// a path; and of an exclude file in which no line begins with `+` every rule drops.
pub proof fn law_include_file_drops_nothing(
    lines: Seq<Seq<char>>,
    file: Seq<char>,
    path: Seq<char>,
    is_dir: bool,
    basename_only: bool,
)
    requires
        pathnorm::normalized(path).len() > 0,
    ensures
        ({
            let kept = rsync::side_patterns(lines, file, true);
            let f = FilterView {
                rules: kept->Ok_0.map_values(|p: PatternView| RuleView::Rsync(p)),
                basename_only,
            };
            kept is Ok && without_sign(lines, '-') ==> f.keeps(path, is_dir)
        }),
        ({
            let dropped = rsync::side_patterns(lines, file, false);
            dropped is Ok && without_sign(lines, '+') ==> forall|i: int|
                0 <= i < dropped->Ok_0.len() ==> !(#[trigger] dropped->Ok_0[i]).keep
        }),
{
    let kept = rsync::side_patterns(lines, file, true);
    let f = FilterView {
        rules: kept->Ok_0.map_values(|p: PatternView| RuleView::Rsync(p)),
        basename_only,
    };
    if kept is Ok && without_sign(lines, '-') {
        lemma_all_on_one_side(lines, file, true);
        assert forall|i: int| 0 <= i < f.rules.len() implies (#[trigger] f.rules[i]).keep() by {
            assert(f.rules[i] == RuleView::Rsync(kept->Ok_0[i]));
        }
        laws::law_keeping_rules_drop_nothing(f, path, is_dir);
    }
    let dropped = rsync::side_patterns(lines, file, false);
    if dropped is Ok && without_sign(lines, '+') {
        lemma_all_on_one_side(lines, file, false);
    }
}

// ---------------------------------------------------------------------------------------------
// Lines of filter files
// ---------------------------------------------------------------------------------------------
/// The line says a rule with this pattern that keeps, or drops, what it matches; or the pattern
/// cannot be read.
pub open spec fn says_rule(
    r: std::result::Result<Option<LineView>, ErrorView>,
    pat: Seq<char>,
    keep: bool,
) -> bool {
    &&& r is Ok <==> rsync::parsed_pattern(pat, keep) is Ok
    &&& r matches Ok(l) ==> {
        &&& l is Some
        &&& l->0 is Rule
        &&& l->0->Rule_0.keep == keep
        &&& l->0->Rule_0.original == pat
        &&& l->0->Rule_0 == rsync::parsed_pattern(pat, keep)->Ok_0
    }
}

/// Law: in a filter line, `+` in front of a pattern makes a rule that keeps, and `-` one that drops;
/// `.` or `:` in front of a path merges the file at that path.
pub proof fn law_signs_of_filter_lines(
    a: Seq<char>,
    sign: char,
    gap: Seq<char>,
    arg: Seq<char>,
    b: Seq<char>,
)
    requires
        text::white(a),
        text::white(gap),
        text::white(b),
        text::bare(arg),
        sign == '+' || sign == '-' || sign == '.' || sign == ':',
    ensures
        ({
            let r = rsync::parsed_line(a + (seq![sign] + gap + arg) + b);
            &&& sign == '+' ==> says_rule(r, arg, true)
            &&& sign == '-' ==> says_rule(r, arg, false)
            &&& sign == '.' || sign == ':' ==> r == Ok::<Option<LineView>, ErrorView>(
                Some(LineView::Merge(arg)),
            )
        }),
{
    reveal_strlit("!");
    reveal_strlit("clear");
    let body = seq![sign] + gap + arg;
    assert(body[0] == sign && body.last() == arg.last());
    text::law_trim_takes_white_space_away(a, body, b);
    assert(body.skip(1) =~= gap + arg + Seq::empty());
    text::law_trim_takes_white_space_away(gap, arg, Seq::empty());
    assert(body != "!"@) by {
        assert("!"@[0] == '!');
    }
    assert(text::lower(body) != "clear"@) by {
        assert(text::lower(body)[0] == text::lower_char(sign));
        assert("clear"@[0] == 'c');
    }
}

/// The words in front of the argument of a line, with the space behind them.
pub open spec fn keyword(word: Seq<char>) -> bool {
    ||| word == "include "@
    ||| word == "exclude "@
    ||| word == "merge "@
    ||| word == "dir-merge "@
    ||| word == "hide "@
    ||| word == "show "@
    ||| word == "protect "@
    ||| word == "risk "@
}

/// Law: the words `include` and `show`, in upper or lower case, make a rule that keeps, `exclude` and
/// `hide` one that drops, `merge` and `dir-merge` merge a file, and `protect` and `risk` say nothing.
pub proof fn law_words_of_filter_lines(
    a: Seq<char>,
    word: Seq<char>,
    gap: Seq<char>,
    arg: Seq<char>,
    b: Seq<char>,
)
    requires
        text::white(a),
        text::white(gap),
        text::white(b),
        text::bare(arg),
        keyword(text::lower(word)),
    ensures
        ({
            let r = rsync::parsed_line(a + (word + gap + arg) + b);
            let w = text::lower(word);
            &&& w == "include "@ || w == "show "@ ==> says_rule(r, arg, true)
            &&& w == "exclude "@ || w == "hide "@ ==> says_rule(r, arg, false)
            &&& w == "merge "@ || w == "dir-merge "@ ==> r == Ok::<Option<LineView>, ErrorView>(
                Some(LineView::Merge(arg)),
            )
            &&& w == "protect "@ || w == "risk "@ ==> r == Ok::<Option<LineView>, ErrorView>(None)
        }),
{
    reveal_strlit("!");
    reveal_strlit("clear");
    reveal_strlit("include ");
    reveal_strlit("exclude ");
    reveal_strlit("merge ");
    reveal_strlit("dir-merge ");
    reveal_strlit("hide ");
    reveal_strlit("show ");
    reveal_strlit("protect ");
    reveal_strlit("risk ");
    let n = word.len() as int;
    let key = text::lower(word);
    let body = word + gap + arg;
    let low = text::lower(body);
    assert(key.len() == n);
    assert(key[0] == text::lower_char(word[0]) && key[1] == text::lower_char(word[1]));
    assert(body.last() == arg.last());
    assert(body[0] == word[0] && body[1] == word[1]);
    lemma_letter(word[0]);
    lemma_letter(word[1]);
    assert(text::bare(body));
    text::law_trim_takes_white_space_away(a, body, b);
    assert(body.skip(n) =~= gap + arg + Seq::empty());
    text::law_trim_takes_white_space_away(gap, arg, Seq::empty());
    assert(low.take(n) =~= key) by {
        assert forall|i: int| 0 <= i < n implies low[i] == key[i] by {
            assert(low[i] == text::lower_char(body[i]));
            assert(body[i] == word[i]);
        }
    }
    assert(text::begins(low, key));
    assert(low.len() > 5);
    assert(low[0] == key[0] && low[1] == key[1]);
    assert forall|w: Seq<char>| #[trigger] text::begins(low, w) && w.len() > 1 implies w[0]
        == low[0] && w[1] == low[1] by {
        assert(low.take(w.len() as int)[0] == low[0]);
        assert(low.take(w.len() as int)[1] == low[1]);
    }
    assert(!rsync::one_letter_rule(body));
}

proof fn lemma_letter(c: char)
    requires
        'a' <= text::lower_char(c) <= 'z',
    ensures
        'a' <= c <= 'z' || 'A' <= c <= 'Z',
        !text::is_space(c),
{
}

/// Law: in front of white space the letter `H` makes a rule that drops, `S` one that keeps, and `P`,
/// `R` and `C` say nothing, in upper or lower case.
pub proof fn law_letters_of_filter_lines(
    a: Seq<char>,
    letter: char,
    gap: Seq<char>,
    arg: Seq<char>,
    b: Seq<char>,
)
    requires
        text::white(a),
        text::white(gap),
        text::white(b),
        text::bare(arg),
        gap.len() > 0,
        gap[0] == ' ' || gap[0] == '\t',
    ensures
        ({
            let r = rsync::parsed_line(a + (seq![letter] + gap + arg) + b);
            &&& letter == 'H' || letter == 'h' ==> says_rule(r, arg, false)
            &&& letter == 'S' || letter == 's' ==> says_rule(r, arg, true)
            &&& letter == 'P' || letter == 'p' || letter == 'R' || letter == 'r' || letter == 'C'
                || letter == 'c' ==> r == Ok::<Option<LineView>, ErrorView>(None)
        }),
{
    reveal_strlit("!");
    reveal_strlit("clear");
    let body = seq![letter] + gap + arg;
    if text::is_space(letter) || letter == '#' || letter == ';' {
        lemma_other_letter(letter);
    } else {
        assert(body[0] == letter && body[1] == gap[0] && body.last() == arg.last());
        text::law_trim_takes_white_space_away(a, body, b);
        assert(body.skip(1) =~= gap + arg + Seq::empty());
        text::law_trim_takes_white_space_away(gap, arg, Seq::empty());
        assert(body != "!"@) by {
            assert(body.len() > 1);
        }
        assert(text::lower(body) != "clear"@) by {
            assert(text::lower(body)[1] == text::lower_char(gap[0]));
            assert("clear"@[1] == 'l');
        }
    }
}

proof fn lemma_other_letter(c: char)
    requires
        text::is_space(c) || c == '#' || c == ';',
    ensures
        !('a' <= c <= 'z') && !('A' <= c <= 'Z'),
{
}

/// Law: any other line is a pattern as a whole, spaces within it too, and drops what it matches.
pub proof fn law_plain_filter_lines(a: Seq<char>, body: Seq<char>, b: Seq<char>)
    requires
        text::white(a),
        text::white(b),
        text::bare(body),
        body[0] != '#' && body[0] != ';' && body[0] != '+' && body[0] != '-' && body[0] != '.'
            && body[0] != ':',
        body.len() > 1 ==> !text::is_space(body[1]),
        body != "!"@,
        text::lower(body) != "clear"@,
        forall|w: Seq<char>| keyword(w) ==> !#[trigger] text::begins(text::lower(body), w),
    ensures
        says_rule(rsync::parsed_line(a + body + b), body, false),
{
    text::law_trim_takes_white_space_away(a, body, b);
    assert(keyword("include "@) && keyword("exclude "@) && keyword("merge "@) && keyword(
        "dir-merge "@,
    ) && keyword("hide "@) && keyword("show "@) && keyword("protect "@) && keyword("risk "@));
}

/// Law: a filter line of one word that has no sign in front drops what it matches. A line that
/// begins with `#` or `;`, and an empty one, say nothing; `!` and `clear` forget the rules so far.
pub proof fn law_other_filter_lines(a: Seq<char>, word: Seq<char>, b: Seq<char>)
    requires
        text::white(a),
        text::white(b),
        forall|i: int| 0 <= i < word.len() ==> !text::is_space(#[trigger] word[i]),
    ensures
        ({
            let r = rsync::parsed_line(a + word + b);
            let silent = word.len() == 0 || word[0] == '#' || word[0] == ';';
            let clears = word == "!"@ || text::lower(word) == "clear"@;
            let signed = word.len() > 0 && (word[0] == '+' || word[0] == '-' || word[0] == '.'
                || word[0] == ':');
            &&& silent ==> r == Ok::<Option<LineView>, ErrorView>(None)
            &&& clears ==> r == Ok::<Option<LineView>, ErrorView>(Some(LineView::Clear))
            &&& !silent && !clears && !signed ==> says_rule(r, word, false)
        }),
{
    reveal_strlit("!");
    reveal_strlit("clear");
    reveal_strlit("include ");
    reveal_strlit("exclude ");
    reveal_strlit("merge ");
    reveal_strlit("dir-merge ");
    reveal_strlit("hide ");
    reveal_strlit("show ");
    reveal_strlit("protect ");
    reveal_strlit("risk ");
    if word.len() > 0 {
        assert(!text::is_space(word[0]) && !text::is_space(word[word.len() - 1]));
    }
    text::law_trim_takes_white_space_away(a, word, b);
    let low = text::lower(word);
    if text::lower(word) == "clear"@ {
        assert(low.len() == word.len());
        assert(low[0] == text::lower_char(word[0]));
    }
    assert forall|w: Seq<char>| #[trigger] text::begins(low, w) && w.len() > 0 && w.last()
        == ' ' implies false by {
        let k = w.len() - 1;
        assert(low.take(w.len() as int)[k] == low[k]);
        assert(low[k] == text::lower_char(word[k]));
        assert(!text::is_space(word[k]));
    }
    if word.len() > 1 {
        assert(!text::is_space(word[1]));
    }
}

/// Law: a `clear` line forgets the rules in front of it, a rule line adds its rule behind the
/// others, and the lines of two files, one behind the other, are taken in one after the other.
pub proof fn law_lines_are_taken_in_order(
    f: FilterView,
    x: Seq<LineView>,
    y: Seq<LineView>,
    p: PatternView,
)
    ensures
        f.with_lines(x + y) == f.with_lines(x).with_lines(y),
        f.with_lines(seq![LineView::Clear]).rules.len() == 0,
        f.with_lines(seq![LineView::Rule(p)]).rules == f.rules.push(RuleView::Rsync(p)),
        f.with_lines(x).basename_only == f.basename_only,
    decreases y.len(), x.len(),
{
    let none = Seq::<LineView>::empty();
    assert(seq![LineView::Clear].drop_last() =~= none);
    assert(seq![LineView::Rule(p)].drop_last() =~= none);
    assert(f.with_lines(none) == f);
    assert(f.with_lines(seq![LineView::Clear]) == f.with_line(LineView::Clear));
    assert(f.with_lines(seq![LineView::Rule(p)]) == f.with_line(LineView::Rule(p)));
    if x.len() > 0 {
        law_lines_are_taken_in_order(f, x.drop_last(), none, p);
    }
    if y.len() == 0 {
        assert(x + y =~= x);
    } else {
        assert((x + y).drop_last() =~= x + y.drop_last());
        assert((x + y).last() == y.last());
        law_lines_are_taken_in_order(f, x, y.drop_last(), p);
    }
}

} // verus!
