//! The platform-neutral text form of a path: decomposition of a string
//! into components, reassembly of components into a string, and
//! whitespace trimming. The neutral form writes `/` for the separator,
//! `.` for the current-directory marker and `..` for the parent marker.

use vstd::prelude::*;

use crate::component::{dot_dot, ComponentModel, PathComponent};

verus! {

/// The component a single separator-free piece of text stands for:
/// nothing for an empty piece (doubled separators), the current or
/// parent marker for `.` and `..`, and a named segment otherwise.
pub open spec fn classify_piece(piece: Seq<char>) -> Option<ComponentModel> {
    if piece.len() == 0 {
        Option::None
    } else if piece == seq!['.'] {
        Option::Some(ComponentModel::Current)
    } else if piece == dot_dot() {
        Option::Some(ComponentModel::Parent)
    } else {
        Option::Some(ComponentModel::Segment(piece))
    }
}

/// The component sequence a single piece contributes: none or one.
pub open spec fn piece_items(piece: Seq<char>) -> Seq<ComponentModel> {
    match classify_piece(piece) {
        Option::None => Seq::empty(),
        Option::Some(c) => seq![c],
    }
}

/// The components of separator-joined text, read left to right with
/// `piece` holding the separator-free text already consumed.
pub open spec fn split_components(s: Seq<char>, piece: Seq<char>) -> Seq<ComponentModel>
    decreases s.len(),
{
    if s.len() == 0 {
        piece_items(piece)
    } else if s[0] == '/' {
        piece_items(piece) + split_components(s.skip(1), Seq::empty())
    } else {
        split_components(s.skip(1), piece.push(s[0]))
    }
}

/// A neutral-form path is absolute exactly when it starts with the
/// separator.
pub open spec fn is_absolute_text(s: Seq<char>) -> bool {
    s.len() > 0 && s[0] == '/'
}

/// The full decomposition of neutral-form text: a leading separator
/// becomes a `Root` component, the rest is split on separators.
pub open spec fn decompose_text(s: Seq<char>) -> Seq<ComponentModel> {
    if is_absolute_text(s) {
        seq![ComponentModel::Root(seq!['/'])] + split_components(s.skip(1), Seq::empty())
    } else {
        split_components(s, Seq::empty())
    }
}

/// The neutral separator as an owned string.
fn separator_string() -> (r: String)
    ensures
        r@ == seq!['/'],
{
    let r = String::from_str("/");
    proof {
        reveal_strlit("/");
        assert(r@ =~= seq!['/']);
    }
    r
}

/// Append the component of one separator-free piece, if it has one.
fn push_piece(out: &mut Vec<PathComponent>, piece: &str)
    ensures
        final (out).deep_view() == old(out).deep_view() + piece_items(piece@),
{
    let ghost stack = out.deep_view();
    let len = piece.unicode_len();
    if len == 0 {
        proof {
            assert(stack + piece_items(piece@) =~= stack);
        }
    } else if len == 1 && piece.get_char(0) == '.' {
        proof {
            assert(piece@ =~= seq!['.']);
        }
        out.push(PathComponent::Current);
        proof {
            assert(out.deep_view() =~= stack + piece_items(piece@));
        }
    } else if len == 2 && piece.get_char(0) == '.' && piece.get_char(1) == '.' {
        proof {
            assert(piece@ =~= dot_dot());
        }
        out.push(PathComponent::Parent);
        proof {
            assert(out.deep_view() =~= stack + piece_items(piece@));
        }
    } else {
        proof {
            if piece@ == seq!['.'] {
                assert(piece@.len() == 1);
                assert(piece@[0] == '.');
            }
            if piece@ == dot_dot() {
                assert(piece@.len() == 2);
                assert(piece@[0] == '.');
                assert(piece@[1] == '.');
            }
        }
        out.push(PathComponent::Segment(String::from_str(piece)));
        proof {
            assert(out.deep_view() =~= stack + piece_items(piece@));
        }
    }
}

/// Decompose neutral-form text into its component sequence and report
/// whether the path is absolute.
pub fn decompose(s: &str) -> (r: (Vec<PathComponent>, bool))
    ensures
        r.0.deep_view() == decompose_text(s@),
        r.1 == is_absolute_text(s@),
{
    let len = s.unicode_len();
    let mut out: Vec<PathComponent> = Vec::new();
    let absolute = len > 0 && s.get_char(0) == '/';
    let mut i: usize = 0;
    if absolute {
        out.push(PathComponent::Root(separator_string()));
        i = 1;
    }
    let mut start: usize = i;
    proof {
        assert(s@.subrange(i as int, i as int) =~= Seq::<char>::empty());
        if absolute {
            assert(out.deep_view() =~= seq![ComponentModel::Root(seq!['/'])]);
        } else {
            assert(out.deep_view() =~= Seq::<ComponentModel>::empty());
            assert(s@.skip(0) =~= s@);
            assert(Seq::<ComponentModel>::empty() + split_components(s@, Seq::empty())
                =~= split_components(s@, Seq::empty()));
        }
    }
    while i < len
        invariant
            len == s@.len(),
            start <= i <= len,
            decompose_text(s@) == out.deep_view() + split_components(
                s@.skip(i as int),
                s@.subrange(start as int, i as int),
            ),
        decreases len - i,
    {
        let ghost rest = s@.skip(i as int);
        let ghost piece = s@.subrange(start as int, i as int);
        proof {
            assert(rest.len() > 0);
            assert(rest[0] == s@[i as int]);
            assert(rest.skip(1) =~= s@.skip(i as int + 1));
        }
        let c = s.get_char(i);
        if c == '/' {
            let ghost stack = out.deep_view();
            let piece_str = s.substring_char(start, i);
            push_piece(&mut out, piece_str);
            proof {
                assert(out.deep_view() =~= stack + piece_items(piece));
                assert((stack + piece_items(piece)) + split_components(
                    s@.skip(i as int + 1),
                    Seq::empty(),
                ) =~= stack + (piece_items(piece) + split_components(
                    s@.skip(i as int + 1),
                    Seq::empty(),
                )));
                assert(s@.subrange(i as int + 1, i as int + 1) =~= Seq::<char>::empty());
            }
            i = i + 1;
            start = i;
        } else {
            proof {
                assert(piece.push(s@[i as int]) =~= s@.subrange(start as int, i as int + 1));
            }
            i = i + 1;
        }
    }
    let ghost piece = s@.subrange(start as int, len as int);
    let ghost stack = out.deep_view();
    proof {
        assert(s@.skip(len as int) =~= Seq::<char>::empty());
    }
    let piece_str = s.substring_char(start, len);
    push_piece(&mut out, piece_str);
    proof {
        assert(out.deep_view() =~= stack + piece_items(piece));
    }
    (out, absolute)
}

proof fn lemma_split_plain(s: Seq<char>, piece: Seq<char>)
    ensures
        crate::collapse::plain_relative(split_components(s, piece)),
    decreases s.len(),
{
    if s.len() == 0 {
    } else if s[0] == '/' {
        lemma_split_plain(s.skip(1), Seq::empty());
        let t = piece_items(piece) + split_components(s.skip(1), Seq::empty());
        assert forall|i: int| 0 <= i < t.len() implies (#[trigger] t[i] is Current || t[i] is Parent
            || crate::collapse::cancellable(t[i])) by {
            if i >= piece_items(piece).len() {
                assert(t[i] == split_components(s.skip(1), Seq::empty())[i - piece_items(
                    piece,
                ).len()]);
            }
        }
    } else {
        lemma_split_plain(s.skip(1), piece.push(s[0]));
    }
}

/// What the decomposer delivers for a relative path is a plain relative
/// sequence: markers and real segments only, no anchor, no segment
/// spelled `.` or `..` — the shape under which the collapse keeps
/// `Parent` components only as a leading run.
pub proof fn lemma_decompose_relative_plain(s: Seq<char>)
    requires
        !is_absolute_text(s),
    ensures
        crate::collapse::plain_relative(decompose_text(s)),
{
    lemma_split_plain(s, Seq::empty());
}

/// A separator where one is due: between two named elements, but not
/// after a root or a prefix.
pub open spec fn sep_text(sep_before_name: bool) -> Seq<char> {
    if sep_before_name {
        seq!['/']
    } else {
        Seq::empty()
    }
}

/// The text of a component sequence, read left to right.
/// `sep_before_name` records whether a separator is due before the next
/// named element: it is after a named element, but not at the very
/// start nor after a root or prefix, whose own text already ends the
/// anchor.
pub open spec fn render_components(s: Seq<ComponentModel>, sep_before_name: bool) -> Seq<char>
    decreases s.len(),
{
    if s.len() == 0 {
        Seq::empty()
    } else {
        match s[0] {
            ComponentModel::Prefix(p) => p + render_components(s.skip(1), false),
            ComponentModel::Root(r) => r + render_components(s.skip(1), false),
            ComponentModel::Current => sep_text(sep_before_name) + seq!['.'] + render_components(
                s.skip(1),
                true,
            ),
            ComponentModel::Parent => sep_text(sep_before_name) + dot_dot() + render_components(
                s.skip(1),
                true,
            ),
            ComponentModel::Segment(name) => sep_text(sep_before_name) + name + render_components(
                s.skip(1),
                true,
            ),
        }
    }
}

/// The neutral text of a whole component sequence.
pub open spec fn reassemble_text(s: Seq<ComponentModel>) -> Seq<char> {
    render_components(s, false)
}

/// Join a component sequence back into neutral-form text.
pub fn reassemble(components: &Vec<PathComponent>) -> (r: String)
    ensures
        r@ == reassemble_text(components.deep_view()),
{
    proof {
        reveal_strlit("/");
        reveal_strlit(".");
        reveal_strlit("..");
        assert("/"@ =~= seq!['/']);
        assert("."@ =~= seq!['.']);
        assert(".."@ =~= dot_dot());
    }
    let ghost dv = components.deep_view();
    let mut out = String::new();
    let mut sep = false;
    let n = components.len();
    let mut i: usize = 0;
    proof {
        assert(dv.skip(0) =~= dv);
    }
    while i < n
        invariant
            n == components.len(),
            dv == components.deep_view(),
            i <= n,
            reassemble_text(dv) == out@ + render_components(dv.skip(i as int), sep),
            "/"@ == seq!['/'] && "."@ == seq!['.'] && ".."@ == dot_dot(),
        decreases n - i,
    {
        let ghost rest = dv.skip(i as int);
        let ghost before = out@;
        let ghost sep_before = sep;
        proof {
            assert(rest.len() > 0);
            assert(rest[0] == dv[i as int]);
            assert(rest.skip(1) =~= dv.skip(i as int + 1));
        }
        match &components[i] {
            PathComponent::Prefix(p) => {
                out.append(p.as_str());
                sep = false;
                proof {
                    assert(before + (p@ + render_components(dv.skip(i as int + 1), false)) =~= (
                    before + p@) + render_components(dv.skip(i as int + 1), false));
                }
            },
            PathComponent::Root(root_sep) => {
                out.append(root_sep.as_str());
                sep = false;
                proof {
                    assert(before + (root_sep@ + render_components(dv.skip(i as int + 1), false))
                        =~= (before + root_sep@) + render_components(dv.skip(i as int + 1), false));
                }
            },
            PathComponent::Current => {
                if sep {
                    out.append("/");
                }
                out.append(".");
                proof {
                    assert(out@ =~= before + sep_text(sep_before) + seq!['.']);
                    assert(before + (sep_text(sep_before) + seq!['.'] + render_components(
                        dv.skip(i as int + 1),
                        true,
                    )) =~= (before + sep_text(sep_before) + seq!['.']) + render_components(
                        dv.skip(i as int + 1),
                        true,
                    ));
                }
                sep = true;
            },
            PathComponent::Parent => {
                if sep {
                    out.append("/");
                }
                out.append("..");
                proof {
                    assert(out@ =~= before + sep_text(sep_before) + dot_dot());
                    assert(before + (sep_text(sep_before) + dot_dot() + render_components(
                        dv.skip(i as int + 1),
                        true,
                    )) =~= (before + sep_text(sep_before) + dot_dot()) + render_components(
                        dv.skip(i as int + 1),
                        true,
                    ));
                }
                sep = true;
            },
            PathComponent::Segment(name) => {
                if sep {
                    out.append("/");
                }
                out.append(name.as_str());
                proof {
                    assert(out@ =~= before + sep_text(sep_before) + name@);
                    assert(before + (sep_text(sep_before) + name@ + render_components(
                        dv.skip(i as int + 1),
                        true,
                    )) =~= (before + sep_text(sep_before) + name@) + render_components(
                        dv.skip(i as int + 1),
                        true,
                    ));
                }
                sep = true;
            },
        }
        i = i + 1;
    }
    proof {
        assert(dv.skip(n as int) =~= Seq::<ComponentModel>::empty());
        assert(out@ + Seq::<char>::empty() =~= out@);
    }
    out
}

/// A character the surrounding-whitespace trim removes: the Unicode
/// whitespace characters.
pub open spec fn is_space_char(c: char) -> bool {
    c == ' ' || c == '\t' || c == '\n' || c == '\r' || c == '\u{000B}' || c == '\u{000C}' || c
        == '\u{0085}' || c == '\u{00A0}' || c == '\u{1680}' || (0x2000 <= c as u32 && c as u32
        <= 0x200A) || c == '\u{2028}' || c == '\u{2029}' || c == '\u{202F}' || c == '\u{205F}' || c
        == '\u{3000}'
}

fn is_space(c: char) -> (b: bool)
    ensures
        b == is_space_char(c),
{
    c == ' ' || c == '\t' || c == '\n' || c == '\r' || c == '\u{000B}' || c == '\u{000C}' || c
        == '\u{0085}' || c == '\u{00A0}' || c == '\u{1680}' || (0x2000 <= c as u32 && c as u32
        <= 0x200A) || c == '\u{2028}' || c == '\u{2029}' || c == '\u{202F}' || c == '\u{205F}' || c
        == '\u{3000}'
}

/// The text with its leading whitespace removed.
pub open spec fn trim_front_text(s: Seq<char>) -> Seq<char>
    decreases s.len(),
{
    if s.len() == 0 {
        s
    } else if is_space_char(s[0]) {
        trim_front_text(s.skip(1))
    } else {
        s
    }
}

/// The text with its trailing whitespace removed.
pub open spec fn trim_back_text(s: Seq<char>) -> Seq<char>
    decreases s.len(),
{
    if s.len() == 0 {
        s
    } else if is_space_char(s.last()) {
        trim_back_text(s.drop_last())
    } else {
        s
    }
}

/// The text with surrounding whitespace removed.
pub open spec fn trim_text(s: Seq<char>) -> Seq<char> {
    trim_back_text(trim_front_text(s))
}

/// Remove surrounding whitespace.
pub fn trim(s: &str) -> (r: &str)
    ensures
        r@ == trim_text(s@),
{
    let len = s.unicode_len();
    let mut i: usize = 0;
    proof {
        assert(s@.skip(0) =~= s@);
    }
    while i < len && is_space(s.get_char(i))
        invariant
            len == s@.len(),
            i <= len,
            trim_front_text(s@) == trim_front_text(s@.skip(i as int)),
        decreases len - i,
    {
        proof {
            assert(s@.skip(i as int)[0] == s@[i as int]);
            assert(s@.skip(i as int).skip(1) =~= s@.skip(i as int + 1));
        }
        i = i + 1;
    }
    proof {
        if i == len {
            assert(s@.skip(i as int) =~= Seq::<char>::empty());
        }
        assert(trim_front_text(s@) == s@.skip(i as int));
        assert(s@.subrange(i as int, len as int) =~= s@.skip(i as int));
    }
    let mut j: usize = len;
    while j > i && is_space(s.get_char(j - 1))
        invariant
            len == s@.len(),
            i <= j <= len,
            trim_front_text(s@) == s@.skip(i as int),
            trim_back_text(s@.skip(i as int)) == trim_back_text(s@.subrange(i as int, j as int)),
        decreases j,
    {
        proof {
            let cur = s@.subrange(i as int, j as int);
            assert(cur.len() > 0);
            assert(cur.last() == s@[j - 1]);
            assert(cur.drop_last() =~= s@.subrange(i as int, j as int - 1));
        }
        j = j - 1;
    }
    proof {
        assert(trim_back_text(s@.subrange(i as int, j as int)) == s@.subrange(i as int, j as int));
    }
    let r = s.substring_char(i, j);
    r
}

} // verus!
