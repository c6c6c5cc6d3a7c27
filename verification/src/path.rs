//! Paths as sequences of components, with Unix separators.
//!
//! A path is held as text; its meaning is the sequence of components that the
//! text parses to, the same way `std::path::Path::components` reads it on Unix:
//! a leading `/` is the root, empty pieces and `.` pieces are skipped (a
//! leading `.` is kept as the current directory), and `..` is the parent.
use vstd::prelude::*;
use vstd::std_specs::iter::IteratorSpec;
use crate::text::{
    pieces, lemma_pieces_nonempty, lemma_pieces_concat, lemma_pieces_without_separator,
    lemma_pieces_have_no_separator, lemma_first_piece_is_prefix,
};

verus! {

/// A component of a path, as a mathematical value.
pub enum Component {
    RootDir,
    CurDir,
    ParentDir,
    Normal(Seq<char>),
}

/// A component of a path, as a run-time value.
pub enum PathComponent {
    RootDir,
    CurDir,
    ParentDir,
    Normal(String),
}

impl View for PathComponent {
    type V = Component;

    open spec fn view(&self) -> Component {
        match self {
            PathComponent::RootDir => Component::RootDir,
            PathComponent::CurDir => Component::CurDir,
            PathComponent::ParentDir => Component::ParentDir,
            PathComponent::Normal(name) => Component::Normal(name@),
        }
    }
}

/// The mathematical components of a run-time sequence of components.
pub open spec fn comps_view(v: Seq<PathComponent>) -> Seq<Component> {
    v.map_values(|c: PathComponent| c@)
}

/// The pieces of `s` between separators: `"a//b"` has the pieces `a`, `` and `b`.
pub open spec fn segments(s: Seq<char>) -> Seq<Seq<char>> {
    pieces(s, '/')
}

/// What one piece of a path stands for; `first` tells whether it is the first piece.
pub open spec fn segment_component(seg: Seq<char>, first: bool) -> Option<Component> {
    if seg.len() == 0 {
        None
    } else if seg == seq!['.'] {
        if first {
            Some(Component::CurDir)
        } else {
            None
        }
    } else if seg == seq!['.', '.'] {
        Some(Component::ParentDir)
    } else {
        Some(Component::Normal(seg))
    }
}

/// The components that a sequence of pieces stands for.
pub open spec fn segment_components(segs: Seq<Seq<char>>) -> Seq<Component>
    decreases segs.len(),
{
    if segs.len() == 0 {
        seq![]
    } else {
        let prev = segment_components(segs.drop_last());
        match segment_component(segs.last(), segs.len() == 1) {
            Some(c) => prev.push(c),
            None => prev,
        }
    }
}

/// Whether the text of a path starts at the root.
pub open spec fn is_rooted(s: Seq<char>) -> bool {
    s.len() > 0 && s[0] == '/'
}

/// The components of the path written `s`.
pub open spec fn components(s: Seq<char>) -> Seq<Component> {
    if is_rooted(s) {
        seq![Component::RootDir] + segment_components(segments(s))
    } else {
        segment_components(segments(s))
    }
}

proof fn lemma_segments_nonempty(s: Seq<char>)
    ensures
        segments(s).len() >= 1,
{
    lemma_pieces_nonempty(s, '/');
}

/// Reads the characters of `s` into a vector.
pub fn chars_of(s: &str) -> (v: Vec<char>)
    ensures
        v@ == s@,
{
    let mut it = s.chars();
    let mut v: Vec<char> = Vec::new();
    assert(v@ + it.remaining() =~= s@);
    loop
        invariant_except_break
            v@ + it.remaining() == s@,
            it.decrease() is Some,
        ensures
            v@ == s@,
        decreases it.decrease()->0,
    {
        let ghost before = it.remaining();
        match it.next() {
            Some(c) => {
                v.push(c);
                assert(v@ + it.remaining() =~= s@) by {
                    assert(before =~= seq![c] + before.drop_first());
                }
            },
            None => {
                assert(v@ =~= s@);
                break ;
            },
        }
    }
    v
}

/// The component that the piece `chars[start..end]` stands for.
fn piece_component(s: &str, chars: &Vec<char>, start: usize, end: usize, first: bool) -> (r: Option<
    PathComponent,
>)
    requires
        chars@ == s@,
        start <= end <= chars@.len(),
    ensures
        match r {
            Some(c) => segment_component(s@.subrange(start as int, end as int), first) == Some(c@),
            None => segment_component(s@.subrange(start as int, end as int), first) is None,
        },
{
    let ghost seg = s@.subrange(start as int, end as int);
    if start == end {
        None
    } else if end - start == 1 && chars[start] == '.' {
        assert(seg =~= seq!['.']);
        if first {
            Some(PathComponent::CurDir)
        } else {
            None
        }
    } else if end - start == 2 && chars[start] == '.' && chars[start + 1] == '.' {
        assert(seg =~= seq!['.', '.']);
        Some(PathComponent::ParentDir)
    } else {
        assert(seg != seq!['.']) by {
            if end - start == 1 {
                assert(seg[0] == chars@[start as int]);
            } else {
                assert(seg.len() != 1);
            }
        }
        assert(seg != seq!['.', '.']) by {
            if end - start == 2 {
                assert(seg[0] == chars@[start as int]);
                assert(seg[1] == chars@[start + 1]);
            } else {
                assert(seg.len() != 2);
            }
        }
        let name = s.substring_char(start, end).to_owned();
        Some(PathComponent::Normal(name))
    }
}

/// Parses the text of a path into its components.
pub fn parse_components(s: &str) -> (res: Vec<PathComponent>)
    ensures
        comps_view(res@) == components(s@),
{
    let chars = chars_of(s);
    let n = chars.len();
    let mut out: Vec<PathComponent> = Vec::new();
    let rooted = n > 0 && chars[0] == '/';
    if rooted {
        out.push(PathComponent::RootDir);
    }
    let ghost root_part: Seq<Component> = if rooted {
        seq![Component::RootDir]
    } else {
        seq![]
    };
    assert(comps_view(out@) =~= root_part);
    let mut seg_start: usize = 0;
    let mut first = true;
    let mut i: usize = 0;
    proof {
        assert(s@.take(0) =~= Seq::<char>::empty());
    }
    while i < n
        invariant
            chars@ == s@,
            n == s@.len(),
            i <= n,
            seg_start <= i,
            segments(s@.take(i as int)).len() >= 1,
            first == (segments(s@.take(i as int)).len() == 1),
            segments(s@.take(i as int)).last() == s@.subrange(seg_start as int, i as int),
            comps_view(out@) == root_part + segment_components(
                segments(s@.take(i as int)).drop_last(),
            ),
        decreases n - i,
    {
        let ghost prev_segs = segments(s@.take(i as int));
        let ghost next = s@.take(i + 1);
        assert(next.drop_last() =~= s@.take(i as int));
        assert(next.last() == chars@[i as int]);
        if chars[i] == '/' {
            let c = piece_component(s, &chars, seg_start, i, first);
            let ghost old_out = comps_view(out@);
            match c {
                Some(comp) => {
                    out.push(comp);
                    assert(comps_view(out@) =~= old_out.push(comp@));
                },
                None => {},
            }
            proof {
                let segs = segments(next);
                assert(segment_components(prev_segs) == match segment_component(
                    prev_segs.last(),
                    prev_segs.len() == 1,
                ) {
                    Some(c) => segment_components(prev_segs.drop_last()).push(c),
                    None => segment_components(prev_segs.drop_last()),
                });
                assert(segs == prev_segs.push(Seq::<char>::empty()));
                assert(segs.drop_last() =~= prev_segs);
                assert(prev_segs.drop_last().push(prev_segs.last()) =~= prev_segs);
                assert(comps_view(out@) =~= root_part + segment_components(segs.drop_last()));
            }
            seg_start = i + 1;
            first = false;
        } else {
            proof {
                let segs = segments(next);
                assert(segs.drop_last() =~= prev_segs.drop_last());
                assert(segs.last() =~= s@.subrange(seg_start as int, i + 1));
            }
        }
        i = i + 1;
    }
    assert(s@.take(n as int) =~= s@);
    let c = piece_component(s, &chars, seg_start, n, first);
    let ghost old_out = comps_view(out@);
    match c {
        Some(comp) => {
            out.push(comp);
            assert(comps_view(out@) =~= old_out.push(comp@));
        },
        None => {},
    }
    proof {
        let segs = segments(s@);
        assert(segment_components(segs) == match segment_component(segs.last(), segs.len() == 1) {
            Some(c) => segment_components(segs.drop_last()).push(c),
            None => segment_components(segs.drop_last()),
        });
        assert(segs.drop_last().push(segs.last()) =~= segs);
        assert(comps_view(out@) =~= root_part + segment_components(segs));
    }
    out
}


/// Whether `n` can be the name of a normal component: not empty, no separator, not `.` or `..`.
pub open spec fn is_name(n: Seq<char>) -> bool {
    &&& n.len() > 0
    &&& !n.contains('/')
    &&& n != seq!['.']
    &&& n != seq!['.', '.']
}

/// Whether every component of `cs` is a normal name.
pub open spec fn all_names(cs: Seq<Component>) -> bool {
    forall|i: int| 0 <= i < cs.len() ==> (#[trigger] cs[i] matches Component::Normal(n) && is_name(n))
}

/// Whether a component is a step below a directory: a normal name or `..`.
pub open spec fn is_step(c: Component) -> bool {
    (c matches Component::Normal(n) && is_name(n)) || c == Component::ParentDir
}

/// Whether every component of `cs` is a step.
pub open spec fn all_steps(cs: Seq<Component>) -> bool {
    forall|i: int| 0 <= i < cs.len() ==> is_step(#[trigger] cs[i])
}

/// Whether `cs` could be the components of a path: the root, the current
/// directory or a step may come first, and every later one is a step.
pub open spec fn well_formed(cs: Seq<Component>) -> bool {
    &&& cs.len() > 0 ==> (cs[0] == Component::RootDir || cs[0] == Component::CurDir || is_step(
        cs[0],
    ))
    &&& forall|i: int| 1 <= i < cs.len() ==> is_step(#[trigger] cs[i])
}

/// The text that stands for one component when it is pushed onto a path.
pub open spec fn component_text(c: Component) -> Seq<char> {
    match c {
        Component::RootDir => seq!['/'],
        Component::CurDir => seq!['.'],
        Component::ParentDir => seq!['.', '.'],
        Component::Normal(n) => n,
    }
}

/// `base` with `rel` pushed onto it, as `PathBuf::push` does on Unix: a rooted
/// `rel` replaces `base`, and a separator goes between them unless `base` is
/// empty or already ends with one.
pub open spec fn join_text(base: Seq<char>, rel: Seq<char>) -> Seq<char> {
    if rel.len() > 0 && rel[0] == '/' {
        rel
    } else if base.len() > 0 && base.last() != '/' {
        base + seq!['/'] + rel
    } else {
        base + rel
    }
}

/// The text of the path built by pushing the components of `cs`, in order, onto an empty path.
pub open spec fn render(cs: Seq<Component>) -> Seq<char>
    decreases cs.len(),
{
    if cs.len() == 0 {
        seq![]
    } else {
        join_text(render(cs.drop_last()), component_text(cs.last()))
    }
}

/// Whether `a` is a leading part of `b`.
pub open spec fn is_prefix_of(a: Seq<Component>, b: Seq<Component>) -> bool {
    a.len() <= b.len() && b.take(a.len() as int) == a
}

/// Whether `cs` holds a `..`.
pub open spec fn has_parent_dir(cs: Seq<Component>) -> bool {
    exists|i: int| 0 <= i < cs.len() && cs[i] == Component::ParentDir
}

/// The components of `path` below `root`, once the components of `root` are taken off its front.
pub open spec fn relative_components(root: Seq<char>, path: Seq<char>) -> Seq<Component> {
    components(path).skip(components(root).len() as int)
}

/// Whether `path` lies in the tree under `root`: it starts with the components of
/// `root`, and what follows holds no `..`.
pub open spec fn lies_under(root: Seq<char>, path: Seq<char>) -> bool {
    &&& is_prefix_of(components(root), components(path))
    &&& !has_parent_dir(relative_components(root, path))
}

/// `base` with `rel` pushed onto it, as `PathBuf::push` does on Unix.
pub fn join(base: &str, rel: &str) -> (res: String)
    ensures
        res@ == join_text(base@, rel@),
{
    let rel_len = rel.unicode_len();
    let base_len = base.unicode_len();
    if rel_len > 0 && rel.get_char(0) == '/' {
        rel.to_owned()
    } else if base_len > 0 && base.get_char(base_len - 1) != '/' {
        let mut res = base.to_owned();
        proof {
            reveal_strlit("/");
        }
        res.append("/");
        res.append(rel);
        assert(base@.last() == base@[base_len - 1]);
        res
    } else {
        let mut res = base.to_owned();
        res.append(rel);
        res
    }
}

/// The text that stands for one component.
fn text_of(c: &PathComponent) -> (t: &str)
    ensures
        t@ == component_text(c@),
{
    match c {
        PathComponent::RootDir => {
            proof {
                reveal_strlit("/");
            }
            "/"
        },
        PathComponent::CurDir => {
            proof {
                reveal_strlit(".");
            }
            "."
        },
        PathComponent::ParentDir => {
            proof {
                reveal_strlit("..");
            }
            ".."
        },
        PathComponent::Normal(name) => name.as_str(),
    }
}

/// The text of the path built by pushing `cs[from..]`, in order, onto an empty path.
pub fn render_from(cs: &Vec<PathComponent>, from: usize) -> (res: String)
    requires
        from <= cs@.len(),
    ensures
        res@ == render(comps_view(cs@).skip(from as int)),
{
    let ghost all = comps_view(cs@);
    let mut res = String::new();
    let mut i = from;
    assert(all.skip(from as int).take(0) =~= Seq::<Component>::empty());
    while i < cs.len()
        invariant
            from <= i <= cs@.len(),
            all == comps_view(cs@),
            res@ == render(all.skip(from as int).take(i - from)),
        decreases cs@.len() - i,
    {
        let t = text_of(&cs[i]);
        res = join(res.as_str(), t);
        proof {
            let done = all.skip(from as int).take(i + 1 - from);
            assert(done.drop_last() =~= all.skip(from as int).take(i - from));
            assert(done.last() == cs@[i as int]@);
        }
        i = i + 1;
    }
    assert(all.skip(from as int).take(i - from) =~= all.skip(from as int));
    res
}

/// Whether two components are the same.
fn same_component(a: &PathComponent, b: &PathComponent) -> (r: bool)
    ensures
        r == (a@ == b@),
{
    match (a, b) {
        (PathComponent::RootDir, PathComponent::RootDir) => true,
        (PathComponent::CurDir, PathComponent::CurDir) => true,
        (PathComponent::ParentDir, PathComponent::ParentDir) => true,
        (PathComponent::Normal(x), PathComponent::Normal(y)) => {
            let same = x.eq(y);
            same
        },
        _ => false,
    }
}

/// Whether `a` is a leading part of `b`.
pub fn starts_with_components(b: &Vec<PathComponent>, a: &Vec<PathComponent>) -> (r: bool)
    ensures
        r == is_prefix_of(comps_view(a@), comps_view(b@)),
{
    if a.len() > b.len() {
        return false;
    }
    let mut i: usize = 0;
    while i < a.len()
        invariant
            a@.len() <= b@.len(),
            i <= a@.len(),
            forall|j: int| 0 <= j < i ==> comps_view(b@)[j] == comps_view(a@)[j],
        decreases a@.len() - i,
    {
        if !same_component(&b[i], &a[i]) {
            assert(comps_view(b@).take(a@.len() as int)[i as int] != comps_view(a@)[i as int]);
            return false;
        }
        i = i + 1;
    }
    assert(comps_view(b@).take(a@.len() as int) =~= comps_view(a@));
    true
}

/// Whether `cs[from..]` holds a `..`.
pub fn has_parent_dir_from(cs: &Vec<PathComponent>, from: usize) -> (r: bool)
    requires
        from <= cs@.len(),
    ensures
        r == has_parent_dir(comps_view(cs@).skip(from as int)),
{
    let ghost rest = comps_view(cs@).skip(from as int);
    let mut i = from;
    while i < cs.len()
        invariant
            from <= i <= cs@.len(),
            rest == comps_view(cs@).skip(from as int),
            forall|j: int| 0 <= j < i - from ==> rest[j] != Component::ParentDir,
        decreases cs@.len() - i,
    {
        if let PathComponent::ParentDir = &cs[i] {
            assert(rest[i - from] == Component::ParentDir);
            return true;
        }
        i = i + 1;
    }
    false
}


/// The texts of a sequence of components.
pub open spec fn texts_of(cs: Seq<Component>) -> Seq<Seq<char>> {
    cs.map_values(|c: Component| component_text(c))
}

proof fn lemma_step_text(c: Component)
    requires
        is_step(c),
    ensures
        component_text(c).len() > 0,
        !component_text(c).contains('/'),
        component_text(c)[0] != '/',
        component_text(c).last() != '/',
        segment_component(component_text(c), true) == Some(c),
        segment_component(component_text(c), false) == Some(c),
{
    let t = component_text(c);
    if c == Component::ParentDir {
        assert(t =~= seq!['.', '.']);
        assert(!t.contains('/')) by {
            if t.contains('/') {
                let k = choose|k: int| 0 <= k < t.len() && t[k] == '/';
                assert(t[k] == '.');
            }
        }
        assert(t != seq!['.']) by {
            assert(t.len() != 1);
        }
    }
    assert(t[0] != '/') by {
        if t[0] == '/' {
            assert(t.contains('/'));
        }
    }
    assert(t.last() != '/') by {
        if t.last() == '/' {
            assert(t[t.len() - 1] == '/');
            assert(t.contains('/'));
        }
    }
}

proof fn lemma_steps_drop_last(cs: Seq<Component>)
    requires
        all_steps(cs),
        cs.len() > 0,
    ensures
        all_steps(cs.drop_last()),
        is_step(cs.last()),
{
    assert forall|i: int| 0 <= i < cs.drop_last().len() implies is_step(#[trigger] cs.drop_last()[i]) by {
        assert(cs.drop_last()[i] == cs[i]);
    }
    assert(cs[cs.len() - 1] == cs.last());
}

proof fn lemma_names_are_steps(cs: Seq<Component>)
    requires
        all_names(cs),
    ensures
        all_steps(cs),
{
    assert forall|i: int| 0 <= i < cs.len() implies is_step(#[trigger] cs[i]) by {
        assert(cs[i] matches Component::Normal(n) && is_name(n));
    }
}

proof fn lemma_render_names(cs: Seq<Component>)
    requires
        cs.len() > 0,
        all_steps(cs),
    ensures
        render(cs).len() > 0,
        render(cs)[0] != '/',
        render(cs).last() != '/',
        segments(render(cs)) == texts_of(cs),
    decreases cs.len(),
{
    let last = cs.last();
    lemma_steps_drop_last(cs);
    lemma_step_text(last);
    let n = component_text(last);
    lemma_pieces_without_separator('/', n);
    if cs.len() == 1 {
        assert(cs.drop_last() =~= Seq::<Component>::empty());
        assert(render(cs) =~= n);
        assert(texts_of(cs) =~= seq![n]);
    } else {
        let c0 = cs.drop_last();
        lemma_render_names(c0);
        let r0 = render(c0);
        assert(render(cs) == r0 + seq!['/'] + n);
        lemma_pieces_concat('/', r0, n);
        assert(texts_of(cs) =~= texts_of(c0) + seq![n]);
        assert((r0 + seq!['/'] + n)[0] == r0[0]);
        assert((r0 + seq!['/'] + n).last() == n.last());
    }
}

proof fn lemma_segment_components_append_names(first: Seq<Seq<char>>, cs: Seq<Component>)
    requires
        first.len() >= 1,
        all_steps(cs),
    ensures
        segment_components(first + texts_of(cs)) == segment_components(first) + cs,
    decreases cs.len(),
{
    if cs.len() == 0 {
        assert(first + texts_of(cs) =~= first);
        assert(segment_components(first) + cs =~= segment_components(first));
    } else {
        let c0 = cs.drop_last();
        lemma_steps_drop_last(cs);
        lemma_segment_components_append_names(first, c0);
        let all = first + texts_of(cs);
        assert(all.drop_last() =~= first + texts_of(c0));
        let last = cs.last();
        lemma_step_text(last);
        assert(all.last() == component_text(last));
        assert(segment_components(first) + cs =~= (segment_components(first) + c0).push(last));
    }
}

proof fn lemma_components_of_joined_names(base: Seq<char>, cs: Seq<Component>)
    requires
        all_steps(cs),
    ensures
        components(join_text(base, render(cs))) == components(base) + cs,
{
    let r = render(cs);
    let x = join_text(base, r);
    lemma_segments_nonempty(base);
    if cs.len() == 0 {
        assert(r =~= Seq::<char>::empty());
        if base.len() > 0 && base.last() != '/' {
            assert(x =~= base + seq!['/'] + Seq::<char>::empty());
            lemma_pieces_concat('/', base, Seq::<char>::empty());
            let segs = segments(x);
            assert(segs.drop_last() =~= segments(base));
            assert(segment_components(segs) == segment_components(segments(base)));
            assert(x[0] == base[0]);
        } else {
            assert(x =~= base);
        }
        assert(components(base) + cs =~= components(base));
    } else {
        lemma_render_names(cs);
        if base.len() > 0 && base.last() != '/' {
            assert(x == base + seq!['/'] + r);
            lemma_pieces_concat('/', base, r);
            lemma_segment_components_append_names(segments(base), cs);
            assert(x[0] == base[0]);
            assert(components(x) =~= components(base) + cs);
        } else if base.len() > 0 {
            let b0 = base.drop_last();
            assert(base =~= b0 + seq!['/']);
            assert(x =~= b0 + seq!['/'] + r);
            lemma_pieces_concat('/', b0, r);
            lemma_pieces_concat('/', b0, Seq::<char>::empty());
            lemma_segments_nonempty(b0);
            assert(b0 + seq!['/'] + Seq::<char>::empty() =~= base);
            let bsegs = segments(base);
            assert(bsegs.drop_last() =~= segments(b0));
            assert(segment_components(bsegs) == segment_components(segments(b0)));
            lemma_segment_components_append_names(segments(b0), cs);
            assert(x[0] == base[0]);
            assert(components(x) =~= components(base) + cs);
        } else {
            assert(x =~= r);
            let n0 = texts_of(cs)[0];
            let one: Seq<Seq<char>> = seq![n0];
            lemma_step_text(cs[0]);
            assert(texts_of(cs) =~= one + texts_of(cs.skip(1)));
            assert(all_steps(cs.skip(1))) by {
                assert forall|i: int| 0 <= i < cs.skip(1).len() implies is_step(
                    #[trigger] cs.skip(1)[i],
                ) by {
                    assert(cs.skip(1)[i] == cs[i + 1]);
                }
            }
            lemma_segment_components_append_names(one, cs.skip(1));
            assert(one.drop_last() =~= Seq::<Seq<char>>::empty());
            assert(segment_components(one.drop_last()) =~= Seq::<Component>::empty());
            assert(n0 == component_text(cs[0]));
            assert(segment_component(n0, true) == Some(cs[0]));
            assert(segment_components(one) =~= seq![cs[0]]);
            assert(segments(base) =~= seq![Seq::<char>::empty()]);
            assert(segment_components(segments(base)) =~= Seq::<Component>::empty()) by {
                assert(segments(base).drop_last() =~= Seq::<Seq<char>>::empty());
            }
            assert(components(x) =~= components(base) + cs);
        }
    }
}

proof fn lemma_segment_component_kinds(segs: Seq<Seq<char>>)
    requires
        forall|i: int| 0 <= i < segs.len() ==> !(#[trigger] segs[i]).contains('/'),
    ensures
        forall|j: int|
            0 <= j < segment_components(segs).len() ==> match #[trigger] segment_components(
                segs,
            )[j] {
                Component::RootDir => false,
                Component::CurDir => j == 0 && segs[0] == seq!['.'],
                Component::ParentDir => true,
                Component::Normal(n) => is_name(n),
            },
    decreases segs.len(),
{
    if segs.len() > 0 {
        let s0 = segs.drop_last();
        assert forall|i: int| 0 <= i < s0.len() implies !(#[trigger] s0[i]).contains('/') by {
            assert(s0[i] == segs[i]);
        }
        lemma_segment_component_kinds(s0);
        let prev = segment_components(s0);
        let last = segs.last();
        assert(!last.contains('/')) by {
            assert(segs[segs.len() - 1] == last);
        }
        if segs.len() == 1 {
            assert(s0 =~= Seq::<Seq<char>>::empty());
            assert(segs[0] == last);
        }
        assert forall|j: int| 0 <= j < segment_components(segs).len() implies match #[trigger] segment_components(
            segs,
        )[j] {
            Component::RootDir => false,
            Component::CurDir => j == 0 && segs[0] == seq!['.'],
            Component::ParentDir => true,
            Component::Normal(n) => is_name(n),
        } by {
            if j < prev.len() {
                assert(segment_components(segs)[j] == prev[j]);
                if prev.len() > 0 {
                    assert(s0[0] == segs[0]);
                }
            }
        }
    }
}

proof fn lemma_component_kinds(s: Seq<char>)
    ensures
        forall|j: int|
            0 <= j < components(s).len() ==> match #[trigger] components(s)[j] {
                Component::RootDir => j == 0,
                Component::CurDir => j == 0,
                Component::ParentDir => true,
                Component::Normal(n) => is_name(n),
            },
{
    let segs = segments(s);
    lemma_pieces_have_no_separator('/', s);
    lemma_segment_component_kinds(segs);
    lemma_first_piece_is_prefix('/', s);
    lemma_segments_nonempty(s);
    let body = segment_components(segs);
    if is_rooted(s) {
        assert forall|j: int| 0 <= j < components(s).len() implies match #[trigger] components(s)[j] {
            Component::RootDir => j == 0,
            Component::CurDir => j == 0,
            Component::ParentDir => true,
            Component::Normal(n) => is_name(n),
        } by {
            if j > 0 {
                assert(components(s)[j] == body[j - 1]);
                if body[j - 1] == Component::CurDir {
                    assert(segs[0] == seq!['.']);
                    assert(segs[0][0] == s[0]);
                }
            }
        }
    }
}

/// A path that lies under `source_root` keeps its place when it is moved under
/// `target_root`: its components are those of `source_root` followed by names
/// only, and the destination's components are those of `target_root` followed
/// by the same names. So the destination never leaves the target tree.
///
/// `source_root` must have at least one component: an empty source root would
/// let a rooted path through unchanged.
pub proof fn lemma_destination_inside_target(
    source_root: Seq<char>,
    target_root: Seq<char>,
    path: Seq<char>,
)
    requires
        components(source_root).len() > 0,
        lies_under(source_root, path),
    ensures
        components(path) == components(source_root) + relative_components(source_root, path),
        all_names(relative_components(source_root, path)),
        components(join_text(target_root, render(relative_components(source_root, path))))
            == components(target_root) + relative_components(source_root, path),
{
    let k = components(source_root).len() as int;
    let p = components(path);
    let rel = relative_components(source_root, path);
    assert(p =~= p.take(k) + rel);
    lemma_component_kinds(path);
    assert(all_names(rel)) by {
        assert forall|i: int| 0 <= i < rel.len() implies (#[trigger] rel[i] matches Component::Normal(
            n,
        ) && is_name(n)) by {
            assert(rel[i] == p[k + i]);
            assert(rel[i] != Component::ParentDir);
            match p[k + i] {
                Component::RootDir => {},
                Component::CurDir => {},
                Component::ParentDir => {},
                Component::Normal(n) => {},
            }
        }
    }
    lemma_names_are_steps(rel);
    lemma_components_of_joined_names(target_root, rel);
}


/// The name of the last component of the path `s`, if that component is a normal one.
pub open spec fn file_name(s: Seq<char>) -> Option<Seq<char>> {
    let cs = components(s);
    if cs.len() > 0 && cs.last() is Normal {
        Some(cs.last()->Normal_0)
    } else {
        None
    }
}

/// Whether `i` is the index of the last `.` in `name`.
pub open spec fn is_last_dot(name: Seq<char>, i: int) -> bool {
    &&& 0 <= i < name.len()
    &&& name[i] == '.'
    &&& forall|j: int| i < j < name.len() ==> name[j] != '.'
}

/// Whether a file name has an extension: it holds a `.` that is not its first character.
pub open spec fn has_extension(name: Seq<char>) -> bool {
    exists|i: int| 0 < i && #[trigger] is_last_dot(name, i)
}

/// The index of the last `.` of a file name that has an extension.
pub open spec fn dot_index(name: Seq<char>) -> int {
    choose|i: int| 0 < i && #[trigger] is_last_dot(name, i)
}

/// The extension of a file name: what follows its last `.`, unless that `.` is its first character.
pub open spec fn name_extension(name: Seq<char>) -> Option<Seq<char>> {
    if has_extension(name) {
        Some(name.skip(dot_index(name) + 1))
    } else {
        None
    }
}

/// The stem of a file name: what precedes its last `.`, unless that `.` is its
/// first character, in which case the whole name.
pub open spec fn name_stem(name: Seq<char>) -> Seq<char> {
    if has_extension(name) {
        name.take(dot_index(name))
    } else {
        name
    }
}

/// The extension of the path `s`, as `Path::extension` gives it.
pub open spec fn extension(s: Seq<char>) -> Option<Seq<char>> {
    match file_name(s) {
        Some(name) => name_extension(name),
        None => None,
    }
}

/// The path `s` with its extension replaced by `ext`, as `PathBuf::set_extension`
/// does it, read as components: none if `s` has no file name; otherwise the
/// components of `s` with the last one renamed to its stem, a `.` and `ext`.
pub open spec fn with_extension(s: Seq<char>, ext: Seq<char>) -> Option<Seq<Component>> {
    match file_name(s) {
        Some(name) => Some(
            components(s).drop_last().push(Component::Normal(name_stem(name) + seq!['.'] + ext)),
        ),
        None => None,
    }
}

/// The index of the last `.` of `name`, if it is not the first character.
fn find_extension_dot(name: &str) -> (r: Option<usize>)
    ensures
        match r {
            Some(i) => has_extension(name@) && i == dot_index(name@),
            None => !has_extension(name@),
        },
{
    let chars = chars_of(name);
    let n = chars.len();
    let mut i = n;
    while i > 0
        invariant
            chars@ == name@,
            n == name@.len(),
            i <= n,
            forall|j: int| i <= j < n ==> chars@[j] != '.',
        decreases i,
    {
        if chars[i - 1] == '.' {
            let k = i - 1;
            assert(is_last_dot(name@, k as int));
            if k == 0 {
                assert(!has_extension(name@)) by {
                    if has_extension(name@) {
                        let d = choose|d: int| 0 < d && #[trigger] is_last_dot(name@, d);
                        assert(d <= 0);
                    }
                }
                return None;
            }
            proof {
                assert(has_extension(name@));
                let d = dot_index(name@);
                assert(0 < d && is_last_dot(name@, d));
                if d < k {
                    assert(name@[k as int] != '.');
                } else if d > k {
                    assert(name@[d] != '.');
                }
            }
            return Some(k);
        }
        i = i - 1;
    }
    assert(!has_extension(name@)) by {
        if has_extension(name@) {
            let d = choose|d: int| 0 < d && #[trigger] is_last_dot(name@, d);
            assert(chars@[d] == '.');
        }
    }
    None
}

/// The name of the last component, if it is a normal one.
fn last_name(cs: &Vec<PathComponent>) -> (r: Option<&String>)
    ensures
        match r {
            Some(n) => cs@.len() > 0 && comps_view(cs@).last() == Component::Normal(n@),
            None => !(cs@.len() > 0 && comps_view(cs@).last() is Normal),
        },
{
    if cs.len() == 0 {
        return None;
    }
    match &cs[cs.len() - 1] {
        PathComponent::Normal(name) => Some(name),
        _ => None,
    }
}

/// The extension of the path `s`, as `Path::extension` gives it.
pub fn path_extension(s: &str) -> (r: Option<String>)
    ensures
        match r {
            Some(e) => extension(s@) == Some(e@),
            None => extension(s@) is None,
        },
{
    let cs = parse_components(s);
    match last_name(&cs) {
        Some(name) => {
            match find_extension_dot(name.as_str()) {
                Some(k) => {
                    let n = name.unicode_len();
                    Some(name.as_str().substring_char(k + 1, n).to_owned())
                },
                None => None,
            }
        },
        None => None,
    }
}

/// The path `s` with its extension replaced by `ext`, as `PathBuf::set_extension`
/// does it; none where `s` has no file name.
pub fn set_extension(s: &str, ext: &str) -> (r: Option<String>)
    ensures
        match r {
            Some(t) => with_extension(s@, ext@) matches Some(cs) && t@ == render(cs),
            None => with_extension(s@, ext@) is None,
        },
{
    let mut cs = parse_components(s);
    let ghost mut fname: Seq<char> = Seq::empty();
    let stem = match last_name(&cs) {
        Some(name) => {
            proof {
                fname = name@;
            }
            match find_extension_dot(name.as_str()) {
                Some(k) => name.as_str().substring_char(0, k).to_owned(),
                None => name.clone(),
            }
        },
        None => {
            return None;
        },
    };
    let ghost old_cs = comps_view(cs@);
    assert(file_name(s@) == Some(fname));
    assert(stem@ == name_stem(fname));
    let mut new_name = stem;
    proof {
        reveal_strlit(".");
    }
    new_name.append(".");
    new_name.append(ext);
    let _ = cs.pop();
    assert(comps_view(cs@) =~= old_cs.drop_last());
    let ghost new_view = new_name@;
    cs.push(PathComponent::Normal(new_name));
    proof {
        assert(new_view == name_stem(fname) + seq!['.'] + ext@);
        assert(comps_view(cs@) =~= old_cs.drop_last().push(
            Component::Normal(name_stem(file_name(s@)->0) + seq!['.'] + ext@),
        ));
        assert(comps_view(cs@).skip(0) =~= comps_view(cs@));
    }
    Some(render_from(&cs, 0))
}

proof fn lemma_last_dot_unique(name: Seq<char>, i: int, j: int)
    requires
        is_last_dot(name, i),
        is_last_dot(name, j),
    ensures
        i == j,
{
    if i < j {
        assert(name[j] != '.');
    } else if j < i {
        assert(name[i] != '.');
    }
}

/// Giving a path that has a file name the extension `ext` (not empty, with no
/// `/` and no `.`) makes its file name the old stem, a `.` and `ext`: read back,
/// the new path has that file name and the extension `ext`.
pub proof fn lemma_set_extension_then_extension(s: Seq<char>, ext: Seq<char>)
    requires
        file_name(s) is Some,
        ext.len() > 0,
        !ext.contains('/'),
        !ext.contains('.'),
    ensures
        with_extension(s, ext) is Some,
        file_name(render(with_extension(s, ext)->0)) == Some(
            name_stem(file_name(s)->0) + seq!['.'] + ext,
        ),
        extension(render(with_extension(s, ext)->0)) == Some(ext),
{
    let name = file_name(s)->0;
    let cs = components(s);
    lemma_component_kinds(s);
    assert(is_name(name)) by {
        assert(cs[cs.len() - 1] == cs.last());
    }
    let stem = name_stem(name);
    if has_extension(name) {
        let d = dot_index(name);
        assert(0 < d && is_last_dot(name, d));
        assert(stem.len() == d);
    }
    assert(stem.len() > 0);
    assert(!stem.contains('/')) by {
        if stem.contains('/') {
            let k = choose|k: int| 0 <= k < stem.len() && stem[k] == '/';
            assert(name[k] == '/');
        }
    }
    let new_name = stem + seq!['.'] + ext;
    assert(!new_name.contains('/')) by {
        if new_name.contains('/') {
            let k = choose|k: int| 0 <= k < new_name.len() && new_name[k] == '/';
            if k < stem.len() {
                assert(stem[k] == '/');
            } else if k > stem.len() {
                assert(ext[k - stem.len() - 1] == '/');
            }
        }
    }
    assert(new_name.len() >= 3);
    assert(new_name != seq!['.']);
    assert(new_name != seq!['.', '.']);
    let prefix = cs.drop_last();
    let new_cs = prefix.push(Component::Normal(new_name));
    assert(with_extension(s, ext) == Some(new_cs));
    let one: Seq<Component> = seq![Component::Normal(new_name)];
    assert(all_names(one));
    lemma_names_are_steps(one);
    assert(one.drop_last() =~= Seq::<Component>::empty());
    assert(new_name[0] != '/') by {
        assert(new_name[0] == stem[0]);
        if stem[0] == '/' {
            assert(stem.contains('/'));
        }
    }
    assert(render(one.drop_last()) =~= Seq::<char>::empty());
    assert(component_text(one.last()) == new_name);
    assert(Seq::<char>::empty() + new_name =~= new_name);
    assert(render(one) == new_name);
    assert(new_cs.drop_last() =~= prefix);
    assert(render(new_cs) == join_text(render(prefix), new_name));
    lemma_components_of_joined_names(render(prefix), one);
    let back = components(render(new_cs));
    assert(back == components(render(prefix)) + one);
    assert(back.last() == Component::Normal(new_name));
    let k = stem.len() as int;
    assert(is_last_dot(new_name, k)) by {
        assert forall|j: int| k < j < new_name.len() implies new_name[j] != '.' by {
            assert(new_name[j] == ext[j - k - 1]);
            if ext[j - k - 1] == '.' {
                assert(ext.contains('.'));
            }
        }
    }
    assert(has_extension(new_name));
    let d2 = dot_index(new_name);
    lemma_last_dot_unique(new_name, d2, k);
    assert(new_name.skip(k + 1) =~= ext);
}

/// The stem of the file name of the path `s`, as `Path::file_stem` gives it.
pub open spec fn file_stem(s: Seq<char>) -> Option<Seq<char>> {
    match file_name(s) {
        Some(name) => Some(name_stem(name)),
        None => None,
    }
}

/// The stem of the file name of the path `s`, as `Path::file_stem` gives it.
pub fn path_file_stem(s: &str) -> (r: Option<String>)
    ensures
        match r {
            Some(t) => file_stem(s@) == Some(t@),
            None => file_stem(s@) is None,
        },
{
    let cs = parse_components(s);
    match last_name(&cs) {
        Some(name) => {
            match find_extension_dot(name.as_str()) {
                Some(k) => Some(name.as_str().substring_char(0, k).to_owned()),
                None => Some(name.clone()),
            }
        },
        None => None,
    }
}

/// Whether the path `s` starts with the components of `base`, as `Path::starts_with` tells.
pub fn path_starts_with(s: &str, base: &str) -> (r: bool)
    ensures
        r == is_prefix_of(components(base@), components(s@)),
{
    let cs = parse_components(s);
    let bs = parse_components(base);
    starts_with_components(&cs, &bs)
}

proof fn lemma_components_well_formed(s: Seq<char>)
    ensures
        well_formed(components(s)),
{
    lemma_component_kinds(s);
    let cs = components(s);
    if cs.len() > 0 {
        match cs[0] {
            Component::RootDir => {},
            Component::CurDir => {},
            Component::ParentDir => {},
            Component::Normal(n) => {},
        }
    }
    assert forall|i: int| 1 <= i < cs.len() implies is_step(#[trigger] cs[i]) by {
        match cs[i] {
            Component::RootDir => {},
            Component::CurDir => {},
            Component::ParentDir => {},
            Component::Normal(n) => {},
        }
    }
}

/// Rendering components that could be those of a path, and reading the text
/// back, gives the same components: a path is known by its components.
pub proof fn lemma_render_roundtrip(cs: Seq<Component>)
    requires
        well_formed(cs),
    ensures
        components(render(cs)) == cs,
    decreases cs.len(),
{
    let e = Seq::<char>::empty();
    if cs.len() == 0 {
        assert(render(cs) =~= e);
        let z: Seq<Seq<char>> = seq![e];
        assert(segments(e) =~= z);
        assert(z.last() == e);
        assert(z.drop_last() =~= Seq::<Seq<char>>::empty());
        assert(segment_components(z.drop_last()) == Seq::<Component>::empty());
        assert(segment_components(z) =~= Seq::<Component>::empty());
    } else if cs.len() == 1 && !is_step(cs[0]) {
        assert(cs.drop_last() =~= Seq::<Component>::empty());
        assert(render(cs.drop_last()) =~= e);
        assert(cs.last() == cs[0]);
        if cs[0] == Component::RootDir {
            let t = seq!['/'];
            assert(render(cs) =~= t);
            assert(t.drop_last() =~= e);
            let z: Seq<Seq<char>> = seq![e];
            assert(pieces(e, '/') =~= z);
            assert(t.last() == '/');
            let segs = segments(t);
            assert(segs =~= z.push(e));
            assert(segs.drop_last() =~= z);
            assert(segs.last() == e);
            assert(z.last() == e);
            assert(z.drop_last() =~= Seq::<Seq<char>>::empty());
            assert(segment_components(z.drop_last()) == Seq::<Component>::empty());
            assert(segment_components(z) =~= Seq::<Component>::empty());
            assert(segment_components(segs) =~= Seq::<Component>::empty());
            assert(components(t) =~= cs);
        } else {
            assert(cs[0] == Component::CurDir);
            let t = seq!['.'];
            assert(render(cs) =~= t);
            assert(t.drop_last() =~= e);
            let z: Seq<Seq<char>> = seq![e];
            assert(pieces(e, '/') =~= z);
            assert(t.last() == '.');
            let segs = segments(t);
            assert(segs =~= seq![t]);
            assert(segs.drop_last() =~= Seq::<Seq<char>>::empty());
            assert(segment_components(segs.drop_last()) == Seq::<Component>::empty());
            assert(segs.last() == t);
            assert(segment_component(t, true) == Some(Component::CurDir));
            assert(segment_components(segs) =~= seq![Component::CurDir]);
            assert(components(t) =~= cs);
        }
    } else {
        let c0 = cs.drop_last();
        let last = cs.last();
        assert(is_step(last)) by {
            assert(cs[cs.len() - 1] == last);
        }
        assert(well_formed(c0)) by {
            assert forall|i: int| 1 <= i < c0.len() implies is_step(#[trigger] c0[i]) by {
                assert(c0[i] == cs[i]);
            }
            if c0.len() > 0 {
                assert(c0[0] == cs[0]);
            }
        }
        lemma_render_roundtrip(c0);
        let one: Seq<Component> = seq![last];
        assert(all_steps(one));
        lemma_step_text(last);
        assert(one.drop_last() =~= Seq::<Component>::empty());
        assert(render(one.drop_last()) =~= e);
        assert(e + component_text(last) =~= component_text(last));
        assert(render(one) == component_text(last));
        lemma_components_of_joined_names(render(c0), one);
        assert(c0 + one =~= cs);
    }
}

/// A page below the source root keeps its directories when its file is given
/// a new extension under the target root: when the source root has a component
/// and `path` lies strictly below it, the destination with the extension `ext`
/// exists, and its components are those of the target root, then the
/// directories of `path` below the source root, then the stem of the file name
/// of `path`, a `.` and `ext`.
pub proof fn lemma_page_destination(
    source_root: Seq<char>,
    target_root: Seq<char>,
    path: Seq<char>,
    ext: Seq<char>,
)
    requires
        components(source_root).len() > 0,
        lies_under(source_root, path),
        relative_components(source_root, path).len() > 0,
        ext.len() > 0,
        !ext.contains('/'),
        !ext.contains('.'),
    ensures
        with_extension(join_text(target_root, render(relative_components(source_root, path))), ext)
            is Some,
        components(
            render(
                with_extension(
                    join_text(target_root, render(relative_components(source_root, path))),
                    ext,
                )->0,
            ),
        ) == components(target_root) + relative_components(source_root, path).drop_last().push(
            Component::Normal(
                name_stem(relative_components(source_root, path).last()->Normal_0) + seq!['.']
                    + ext,
            ),
        ),
{
    let rel = relative_components(source_root, path);
    let dest = join_text(target_root, render(rel));
    lemma_destination_inside_target(source_root, target_root, path);
    let dc = components(dest);
    assert(dc == components(target_root) + rel);
    assert(rel.last() matches Component::Normal(n) && is_name(n)) by {
        assert(rel[rel.len() - 1] == rel.last());
    }
    assert(dc.last() == rel.last());
    let name = rel.last()->Normal_0;
    assert(file_name(dest) == Some(name));
    lemma_set_extension_then_extension(dest, ext);
    let cs = with_extension(dest, ext)->0;
    let new_name = name_stem(name) + seq!['.'] + ext;
    assert(cs == dc.drop_last().push(Component::Normal(new_name)));
    assert(dc.drop_last() =~= components(target_root) + rel.drop_last());
    // the new name is a name, as the law on set_extension shows through its file name
    assert(file_name(render(cs)) == Some(new_name));
    lemma_components_well_formed(dest);
    assert(well_formed(cs)) by {
        lemma_component_kinds(render(cs));
        let back = components(render(cs));
        assert(back.len() > 0 && back.last() == Component::Normal(new_name));
        assert(back[back.len() - 1] == back.last());
        if cs.len() > 1 {
            assert(cs[0] == dc[0]);
        }
        assert forall|i: int| 1 <= i < cs.len() implies is_step(#[trigger] cs[i]) by {
            if i < cs.len() - 1 {
                assert(cs[i] == dc[i]);
            } else {
                assert(back.len() > 0 && back.last() == Component::Normal(new_name));
                assert(back[back.len() - 1] == back.last());
            }
        }
    }
    lemma_render_roundtrip(cs);
}

} // verus!
