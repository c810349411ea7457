use vstd::prelude::*;

use crate::index::{path_set_members, PathSet};

verus! {

/// Relies on String::push, which appends one character.
pub assume_specification[ String::push ](s: &mut String, ch: char)
    ensures
        final(s)@ == old(s)@.push(ch),
;

/// A line without the carriage return that ends it, if any.
pub open spec fn strip_cr(line: Seq<char>) -> Seq<char> {
    if line.len() > 0 && line.last() == '\r' {
        line.drop_last()
    } else {
        line
    }
}

/// Splitting a text at its newlines: the finished lines, and the
/// characters after the last newline.
pub open spec fn split_state(text: Seq<char>) -> (Seq<Seq<char>>, Seq<char>)
    decreases text.len(),
{
    if text.len() == 0 {
        (Seq::empty(), Seq::empty())
    } else {
        let (done, cur) = split_state(text.drop_last());
        if text.last() == '\n' {
            (done.push(strip_cr(cur)), Seq::empty())
        } else {
            (done, cur.push(text.last()))
        }
    }
}

/// The lines of a text: split at `\n`, each line that a `\n` ends loses one
/// trailing `\r`, and a last line is there only when not empty.
pub open spec fn lines_of(text: Seq<char>) -> Seq<Seq<char>> {
    let (done, cur) = split_state(text);
    if cur.len() > 0 {
        done.push(cur)
    } else {
        done
    }
}

/// The lines of an ignore list, each a path to leave out.
pub fn ignore_lines(text: &str) -> (r: Vec<String>)
    ensures
        r@.map_values(|l: String| l@) == lines_of(text@),
{
    let mut done: Vec<String> = Vec::new();
    let mut cur = String::new();
    let mut pending_cr = false;
    let ghost chars = text@;
    for c in it: text.chars()
        invariant
            it.seq() == chars,
            ({
                let (sd, sc) = split_state(chars.subrange(0, it.index() as int));
                &&& done@.map_values(|l: String| l@) == sd
                &&& sc == if pending_cr {
                    cur@.push('\r')
                } else {
                    cur@
                }
                &&& !pending_cr ==> (cur@.len() == 0 || cur@.last() != '\r')
            }),
    {
        let ghost i = it.index() as int;
        assert(chars.subrange(0, i + 1).drop_last() =~= chars.subrange(0, i));
        assert(chars.subrange(0, i + 1).last() == c);
        let ghost old_done = done@;
        let ghost old_cur = cur@;
        if c == '\n' {
            assert(old_cur.push('\r').drop_last() =~= old_cur);
            done.push(cur);
            assert(done@.map_values(|l: String| l@) =~= old_done.map_values(|l: String| l@).push(
                old_cur,
            ));
            cur = String::new();
            pending_cr = false;
        } else if c == '\r' {
            if pending_cr {
                cur.push('\r');
            }
            pending_cr = true;
        } else {
            if pending_cr {
                cur.push('\r');
                pending_cr = false;
            }
            cur.push(c);
        }
    }
    if pending_cr {
        cur.push('\r');
    }
    assert(chars.subrange(0, chars.len() as int) =~= chars);
    if cur.unicode_len() > 0 {
        done.push(cur);
    }
    done
}

/// The paths to leave out of a run, compared as exact strings.
pub struct IgnoreSet {
    paths: PathSet,
}

impl IgnoreSet {
    /// The ignored path strings.
    pub closed spec fn members(&self) -> Set<Seq<char>> {
        path_set_members(self.paths)
    }

    /// An ignore set holding no path.
    pub fn new() -> (r: IgnoreSet)
        ensures
            r.members() == Set::<Seq<char>>::empty(),
    {
        IgnoreSet { paths: PathSet::new() }
    }

    /// Adds one path.
    pub fn add(&mut self, path: String)
        ensures
            final(self).members() == old(self).members().insert(path@),
    {
        self.paths.insert(path);
    }

    /// The ignore set of an ignore list: one path per line.
    pub fn from_text(text: &str) -> (r: IgnoreSet)
        ensures
            r.members() == lines_of(text@).to_set(),
    {
        let lines = ignore_lines(text);
        let ghost views = lines@.map_values(|l: String| l@);
        let mut set = IgnoreSet::new();
        let mut i: usize = 0;
        while i < lines.len()
            invariant
                i <= lines.len(),
                views == lines@.map_values(|l: String| l@),
                set.members() == views.subrange(0, i as int).to_set(),
            decreases lines.len() - i,
        {
            assert(views.subrange(0, i + 1) =~= views.subrange(0, i as int).push(
                lines@[i as int]@,
            ));
            proof {
                views.subrange(0, i as int).lemma_push_to_set_commute(lines@[i as int]@);
            }
            set.add(lines[i].clone());
            i += 1;
        }
        assert(views.subrange(0, lines.len() as int) =~= views);
        set
    }

    /// Whether `path` is ignored.
    pub fn contains(&self, path: &str) -> (r: bool)
        ensures
            r == self.members().contains(path@),
    {
        self.paths.contains(path)
    }
}

/// `paths` without the members of `ignored`, in order.
pub open spec fn retained(paths: Seq<String>, ignored: Set<Seq<char>>) -> Seq<String> {
    paths.filter(|p: String| !ignored.contains(p@))
}

/// Removes from `images` every path that the ignore set holds, keeping the
/// order of the rest.
pub fn apply_ignore(images: &mut Vec<String>, ignored: &IgnoreSet)
    ensures
        final(images)@ == retained(old(images)@, ignored.members()),
{
    let ghost all = old(images)@;
    let ghost pred = |p: String| !ignored.members().contains(p@);
    let mut kept: Vec<String> = Vec::new();
    let mut i: usize = 0;
    while i < images.len()
        invariant
            i <= images.len(),
            images@ == all,
            pred == (|p: String| !ignored.members().contains(p@)),
            kept@ == all.subrange(0, i as int).filter(pred),
        decreases images.len() - i,
    {
        assert(all.subrange(0, i + 1) =~= all.subrange(0, i as int).push(all[i as int]));
        proof {
            all.subrange(0, i as int).lemma_filter_push(all[i as int], pred);
        }
        if !ignored.contains(images[i].as_str()) {
            kept.push(images[i].clone());
        }
        i += 1;
    }
    assert(all.subrange(0, all.len() as int) =~= all);
    *images = kept;
}

/// A path listed in the ignore set is not retained.
pub proof fn lemma_ignored_path_removed(paths: Seq<String>, ignored: Set<Seq<char>>, p: Seq<char>)
    requires
        ignored.contains(p),
    ensures
        forall|k: int|
            0 <= k < retained(paths, ignored).len() ==> #[trigger] retained(paths, ignored)[k]@
                != p,
{
    assert forall|k: int| 0 <= k < retained(paths, ignored).len() implies #[trigger] retained(
        paths,
        ignored,
    )[k]@ != p by {
        paths.lemma_filter_pred(|q: String| !ignored.contains(q@), k);
    }
}

/// Listing a path that none of `paths` has changes nothing.
pub proof fn lemma_unrelated_ignore_no_effect(
    paths: Seq<String>,
    ignored: Set<Seq<char>>,
    p: Seq<char>,
)
    requires
        forall|k: int| 0 <= k < paths.len() ==> #[trigger] paths[k]@ != p,
    ensures
        retained(paths, ignored.insert(p)) == retained(paths, ignored),
    decreases paths.len(),
{
    if paths.len() > 0 {
        let prefix = paths.drop_last();
        assert forall|k: int| 0 <= k < prefix.len() implies #[trigger] prefix[k]@ != p by {
            assert(prefix[k] == paths[k]);
        }
        lemma_unrelated_ignore_no_effect(prefix, ignored, p);
        assert(paths =~= prefix.push(paths.last()));
        prefix.lemma_filter_push(paths.last(), |q: String| !ignored.insert(p).contains(q@));
        prefix.lemma_filter_push(paths.last(), |q: String| !ignored.contains(q@));
        assert(paths.last()@ != p);
    }
}

} // verus!
