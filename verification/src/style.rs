//! Turning an editor theme's style records into CSS rules: which selectors
//! are kept, how they are rewritten into class selectors, and the exact text
//! of each rule.
//!
//! Reading the theme file itself is an outside concern; a caller hands over
//! the fields of each style record.

use vstd::prelude::*;

verus! {

use vstd::string::StrSliceExecFns;
use crate::strings::{match_at, trim_spec, trim_of, contains_sub};
use crate::parse_event_handlers::{split_spec, split_by};

/// One style record of a theme: the scopes it applies to and its colors.
#[derive(Debug)]
pub struct StyleEntry {
    pub scope: Option<String>,
    pub foreground: Option<String>,
    pub background: Option<String>,
    pub font_style: Option<String>,
}

impl Default for StyleEntry {
    fn default() -> (r: Self)
        ensures
            r.scope is None,
            r.foreground is None,
            r.background is None,
            r.font_style is None,
    {
        StyleEntry { scope: None, foreground: None, background: None, font_style: None }
    }
}

/// The CSS declaration a theme's font style maps to; unknown styles map to
/// nothing.
pub open spec fn font_css(fs: Seq<char>) -> Seq<char> {
    if fs == "bold"@ {
        "font-weight: bold"@
    } else if fs == "italic"@ {
        "font-style: italic"@
    } else if fs == "underline"@ {
        "font-decoration: underline"@
    } else {
        Seq::empty()
    }
}

/// The text of one CSS rule: the root and the selector, then one line per
/// present color, then the font declaration where one is mapped.
pub open spec fn entry_spec(
    root: Seq<char>,
    selector: Seq<char>,
    foreground: Option<Seq<char>>,
    background: Option<Seq<char>>,
    font_style: Option<Seq<char>>,
) -> Seq<char> {
    root + seq![' '] + selector + " {\n"@ + (match foreground {
        Some(c) => "\tcolor: "@ + c + ";\n"@,
        None => Seq::empty(),
    }) + (match background {
        Some(c) => "\tbackground-color: "@ + c + ";\n"@,
        None => Seq::empty(),
    }) + (match font_style {
        Some(f) => {
            if font_css(f).len() > 0 {
                seq!['\t'] + font_css(f) + ";\n"@
            } else {
                Seq::empty()
            }
        },
        None => Seq::empty(),
    }) + "}\n"@
}

/// A selector list rewritten for class-based output: each word of each kept
/// selector becomes a class name. The first word opens with a dot; later
/// words follow after a space.
pub open spec fn dotted(words: Seq<Seq<char>>) -> Seq<char> {
    if words.len() == 0 {
        Seq::empty()
    } else {
        seq!['.'] + words[0] + dotted_rest(words.drop_first())
    }
}

pub open spec fn dotted_rest(words: Seq<Seq<char>>) -> Seq<char>
    decreases words.len(),
{
    if words.len() == 0 {
        Seq::empty()
    } else {
        seq![' ', '.'] + words[0] + dotted_rest(words.drop_first())
    }
}

/// A selector carrying a parenthesis is an annotation, not a scope; it is
/// skipped.
pub open spec fn has_paren(t: Seq<char>) -> bool {
    exists|j: int| 0 <= j < t.len() && t[j] == '('
}

proof fn lemma_paren_match(t: Seq<char>)
    ensures
        (exists|j: int| match_at(t, seq!['('], j)) == has_paren(t),
{
    if exists|j: int| match_at(t, seq!['('], j) {
        let j = choose|j: int| match_at(t, seq!['('], j);
        assert(t.subrange(j, j + 1)[0] == t[j]);
    }
    if has_paren(t) {
        let j = choose|j: int| 0 <= j < t.len() && t[j] == '(';
        assert(t.subrange(j, j + 1) =~= seq!['(']);
        assert(match_at(t, seq!['('], j));
    }
}

/// The CSS rule text of one selector, after trimming and dotting its words.
pub open spec fn selector_entry(
    sel: Seq<char>,
    root: Seq<char>,
    foreground: Option<Seq<char>>,
    background: Option<Seq<char>>,
    font_style: Option<Seq<char>>,
) -> Seq<char> {
    entry_spec(
        root,
        dotted(split_spec(trim_spec(sel), seq![' '])),
        foreground,
        background,
        font_style,
    )
}

/// One rule per kept selector of the list.
pub open spec fn selector_entries(
    sels: Seq<Seq<char>>,
    root: Seq<char>,
    foreground: Option<Seq<char>>,
    background: Option<Seq<char>>,
    font_style: Option<Seq<char>>,
) -> Seq<Seq<char>>
    decreases sels.len(),
{
    if sels.len() == 0 {
        Seq::empty()
    } else {
        let rest = selector_entries(sels.drop_first(), root, foreground, background, font_style);
        if has_paren(sels[0]) {
            rest
        } else {
            seq![selector_entry(sels[0], root, foreground, background, font_style)] + rest
        }
    }
}

/// What a whole record renders to: one rule per kept selector of its scope,
/// or a single rule for everything when it names no scope.
pub open spec fn entries_spec(
    scope: Option<Seq<char>>,
    root: Seq<char>,
    foreground: Option<Seq<char>>,
    background: Option<Seq<char>>,
    font_style: Option<Seq<char>>,
) -> Seq<Seq<char>> {
    match scope {
        None => seq![entry_spec(root, seq!['*'], foreground, background, font_style)],
        Some(s) => selector_entries(split_spec(s, seq![',']), root, foreground, background,
            font_style),
    }
}

fn join_dotted(words: &Vec<String>) -> (r: String)
    ensures
        r@ == dotted(words.deep_view()),
{
    let mut out = String::new();
    let n = words.len();
    if n == 0 {
        assert(out@ =~= dotted(words.deep_view()));
        return out;
    }
    proof {
        assert(words.deep_view()[0] == words@[0].deep_view());
    }
    out.push('.');
    out.append(words[0].as_str());
    let mut i: usize = 1;
    proof {
        assert(words.deep_view().skip(1) =~= words.deep_view().drop_first());
        assert(dotted(words.deep_view()) =~= seq!['.'] + words.deep_view()[0] + dotted_rest(
            words.deep_view().skip(1),
        ));
    }
    while i < n
        invariant
            n == words@.len(),
            words.deep_view().len() == n,
            1 <= i <= n,
            dotted(words.deep_view()) == out@ + dotted_rest(words.deep_view().skip(i as int)),
        decreases n - i,
    {
        let ghost pre = words.deep_view().skip(i as int);
        proof {
            assert(pre[0] == words.deep_view()[i as int]);
            assert(words.deep_view()[i as int] == words@[i as int].deep_view());
            assert(pre.drop_first() =~= words.deep_view().skip(i + 1));
        }
        out.push(' ');
        out.push('.');
        out.append(words[i].as_str());
        i = i + 1;
    }
    proof {
        assert(words.deep_view().skip(n as int) =~= Seq::<Seq<char>>::empty());
        assert(dotted_rest(words.deep_view().skip(n as int)) =~= Seq::<char>::empty());
        assert(out@ =~= out@ + dotted_rest(words.deep_view().skip(n as int)));
    }
    out
}

impl StyleEntry {
    /// The spec-level value of the optional foreground color.
    pub open spec fn fg(&self) -> Option<Seq<char>> {
        self.foreground.deep_view()
    }

    pub open spec fn bg(&self) -> Option<Seq<char>> {
        self.background.deep_view()
    }

    pub open spec fn font(&self) -> Option<Seq<char>> {
        self.font_style.deep_view()
    }

    /// The text of this record's rule for one selector.
    pub fn css_entry(&self, root: &str, selector: &str) -> (r: String)
        ensures
            r@ == entry_spec(root@, selector@, self.fg(), self.bg(), self.font()),
    {
        let mut out = root.to_owned();
        out.push(' ');
        out.append(selector);
        out.append(" {\n");
        if let Some(fg) = &self.foreground {
            out.append("\tcolor: ");
            out.append(fg.as_str());
            out.append(";\n");
        }
        if let Some(bg) = &self.background {
            out.append("\tbackground-color: ");
            out.append(bg.as_str());
            out.append(";\n");
        }
        if let Some(fs) = &self.font_style {
            let bold = String::from_str("bold");
            let italic = String::from_str("italic");
            let underline = String::from_str("underline");
            let translated: &str = if fs.eq(&bold) {
                "font-weight: bold"
            } else if fs.eq(&italic) {
                "font-style: italic"
            } else if fs.eq(&underline) {
                "font-decoration: underline"
            } else {
                ""
            };
            proof {
                reveal_strlit("font-weight: bold");
                reveal_strlit("font-style: italic");
                reveal_strlit("font-decoration: underline");
                reveal_strlit("");
                assert(translated@ == font_css(fs@));
            }
            if translated.unicode_len() > 0 {
                out.push('\t');
                out.append(translated);
                out.append(";\n");
            }
        }
        out.append("}\n");
        assert(out@ =~= entry_spec(root@, selector@, self.fg(), self.bg(), self.font()));
        out
    }

    /// Every CSS rule of this record: its scope list split, annotations
    /// skipped, each kept selector trimmed and rewritten to classes.
    pub fn css_entries(&self, root: &str) -> (r: Vec<String>)
        ensures
            r.deep_view() == entries_spec(self.scope.deep_view(), root@, self.fg(), self.bg(),
                self.font()),
    {
        let mut out: Vec<String> = Vec::new();
        match &self.scope {
            None => {
                let entry = self.css_entry(root, "*");
                proof {
                    reveal_strlit("*");
                    assert("*"@ =~= seq!['*']);
                }
                out.push(entry);
                proof {
                    assert(out.deep_view() =~= seq![
                        entry_spec(root@, seq!['*'], self.fg(), self.bg(), self.font()),
                    ]) by {
                        assert(out.deep_view().len() == 1);
                        assert(out.deep_view()[0] == out@[0].deep_view());
                    }
                }
                out
            },
            Some(scope) => {
                proof {
                    reveal_strlit(",");
                    assert(","@ =~= seq![',']);
                }
                let sels = split_by(scope.as_str(), ",");
                let ghost sel_views = sels.deep_view();
                let n = sels.len();
                let mut i: usize = 0;
                proof {
                    assert(sel_views.skip(0) =~= sel_views);
                    assert(out.deep_view() =~= Seq::<Seq<char>>::empty());
                    assert(out.deep_view() + selector_entries(sel_views, root@, self.fg(),
                        self.bg(), self.font()) =~= selector_entries(sel_views, root@, self.fg(),
                        self.bg(), self.font()));
                }
                while i < n
                    invariant
                        n == sels@.len(),
                        sel_views == sels.deep_view(),
                        sel_views.len() == n,
                        0 <= i <= n,
                        selector_entries(sel_views, root@, self.fg(), self.bg(), self.font())
                            == out.deep_view() + selector_entries(
                            sel_views.skip(i as int),
                            root@,
                            self.fg(),
                            self.bg(),
                            self.font(),
                        ),
                    decreases n - i,
                {
                    let ghost pre = sel_views.skip(i as int);
                    proof {
                        assert(pre[0] == sel_views[i as int]);
                        assert(sel_views[i as int] == sels@[i as int].deep_view());
                        assert(pre.drop_first() =~= sel_views.skip(i + 1));
                    }
                    let sel = &sels[i];
                    proof {
                        reveal_strlit("(");
                        assert("("@ =~= seq!['(']);
                        lemma_paren_match(sel@);
                    }
                    if contains_sub(sel.as_str(), "(") {
                        proof {
                            assert(has_paren(pre[0]));
                        }
                    } else {
                        proof {
                            assert(!has_paren(pre[0]));
                        }
                        let trimmed = trim_of(sel.as_str());
                        proof {
                            reveal_strlit(" ");
                            assert(" "@ =~= seq![' ']);
                        }
                        let words = split_by(trimmed.as_str(), " ");
                        let selector = join_dotted(&words);
                        let entry = self.css_entry(root, selector.as_str());
                        let ghost old_deep = out.deep_view();
                        out.push(entry);
                        proof {
                            assert forall|x: int|
                                0 <= x < out@.len() implies out.deep_view()[x] == (if x
                                < old_deep.len() {
                                old_deep[x]
                            } else {
                                selector_entry(pre[0], root@, self.fg(), self.bg(), self.font())
                            }) by {
                                if x < old_deep.len() {
                                    assert(out.deep_view()[x] == out@[x].deep_view());
                                }
                            }
                            assert(out.deep_view() =~= old_deep.push(
                                selector_entry(pre[0], root@, self.fg(), self.bg(), self.font()),
                            ));
                        }
                    }
                    i = i + 1;
                }
                proof {
                    assert(sel_views.skip(n as int) =~= Seq::<Seq<char>>::empty());
                    assert(selector_entries(sel_views.skip(n as int), root@, self.fg(), self.bg(),
                        self.font()) =~= Seq::<Seq<char>>::empty());
                    assert(out.deep_view() =~= out.deep_view() + selector_entries(
                        sel_views.skip(n as int),
                        root@,
                        self.fg(),
                        self.bg(),
                        self.font(),
                    ));
                }
                out
            },
        }
    }
}

} // verus!
