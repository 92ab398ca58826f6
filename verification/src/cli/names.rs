//! Where the name of a received file leads.

use crate::text::chars_of;
use vstd::prelude::*;

verus! {

/// How the system that receives a file reads paths.
#[derive(Debug, Clone, Copy, PartialEq, Eq, Structural)]
pub enum PathStyle {
    /// Parts are separated by slashes alone.
    Unix,
    /// Parts are separated by slashes and backslashes; a path may start at a drive.
    Windows,
}

impl PathStyle {
    /// The character separates the parts of a path.
    pub open spec fn is_separator(self, c: char) -> bool {
        c == '/' || (self == PathStyle::Windows && c == '\\')
    }

    /// The path starts at a root or at a drive.
    pub open spec fn is_rooted(self, name: Seq<char>) -> bool {
        ||| name.len() > 0 && self.is_separator(name[0])
        ||| self == PathStyle::Windows && name.len() > 1 && name[1] == ':' && ('a' <= name[0] <= 'z'
            || 'A' <= name[0] <= 'Z')
    }

    /// The parts of a path.
    pub open spec fn parts(self, name: Seq<char>) -> Seq<Seq<char>>
        decreases name.len(),
    {
        if name.len() == 0 {
            seq![Seq::empty()]
        } else {
            let before = self.parts(name.drop_last());
            if self.is_separator(name.last()) {
                before.push(Seq::empty())
            } else {
                before.drop_last().push(before.last().push(name.last()))
            }
        }
    }

    /// A file of this name lies in the directory in which it is created, or
    /// below it: the path is relative, and no start of it leads out.
    pub open spec fn stays_inside(self, name: Seq<char>) -> bool {
        !self.is_rooted(name) && keeps_inside(self.parts(name))
    }

    fn separates(self, c: char) -> (yes: bool)
        ensures
            yes == self.is_separator(c),
    {
        c == '/' || (self == PathStyle::Windows && c == '\\')
    }
}

/// The part leads nowhere.
pub open spec fn is_idle(part: Seq<char>) -> bool {
    part.len() == 0 || part == seq!['.']
}

/// How far below its start a path leads: one further down with each part, one
/// up again with each `..`.
pub open spec fn level(parts: Seq<Seq<char>>) -> int
    decreases parts.len(),
{
    if parts.len() == 0 {
        0
    } else {
        let before = level(parts.drop_last());
        if is_idle(parts.last()) {
            before
        } else if parts.last() == seq!['.', '.'] {
            before - 1
        } else {
            before + 1
        }
    }
}

/// No start of the path leads above where it starts.
pub open spec fn keeps_inside(parts: Seq<Seq<char>>) -> bool {
    forall|k: int| 0 <= k <= parts.len() ==> level(#[trigger] parts.take(k)) >= 0
}

/// One more part keeps a path inside if it does not lead above the start.
proof fn one_more_part(parts: Seq<Seq<char>>, part: Seq<char>)
    ensures
        keeps_inside(parts.push(part)) <==> keeps_inside(parts) && level(parts.push(part)) >= 0,
{
    let more = parts.push(part);
    assert forall|k: int| 0 <= k <= parts.len() implies #[trigger] more.take(k) == parts.take(k) by {
        assert(more.take(k) =~= parts.take(k));
    }
    assert(more.take(more.len() as int) =~= more);
    if keeps_inside(more) {
        assert forall|k: int| 0 <= k <= parts.len() implies level(#[trigger] parts.take(k)) >= 0 by {
            assert(more.take(k) == parts.take(k));
        }
    }
}

/// Where a path leads with one more part, which has so many characters, dots
/// alone or not.
fn level_with(before: i128, len: usize, dots: bool, part: Ghost<Seq<char>>, parts: Ghost<
    Seq<Seq<char>>,
>) -> (r: i128)
    requires
        before == level(parts@),
        len == part@.len(),
        dots == (forall|i: int| 0 <= i < part@.len() ==> #[trigger] part@[i] == '.'),
        -0x1_0000_0000_0000_0000 <= before <= 0x1_0000_0000_0000_0000,
    ensures
        r == level(parts@.push(part@)),
        before - 1 <= r <= before + 1,
{
    proof {
        assert(parts@.push(part@).drop_last() =~= parts@);
        if dots && len == 1 {
            assert(part@ =~= seq!['.']);
        }
        if dots && len == 2 {
            assert(part@ =~= seq!['.', '.']);
        }
        if !dots {
            let i = choose|i: int| 0 <= i < part@.len() && part@[i] != '.';
            assert(part@ != seq!['.']) by {
                if part@ == seq!['.'] {
                    assert(part@[i] == '.');
                }
            }
            assert(part@ != seq!['.', '.']) by {
                if part@ == seq!['.', '.'] {
                    assert(part@[i] == '.');
                }
            }
        }
    }
    if len == 0 || (dots && len == 1) {
        before
    } else if dots && len == 2 {
        before - 1
    } else {
        before + 1
    }
}

/// A file of this name lies in the directory in which it is created, or below it.
pub fn name_stays_inside(style: PathStyle, name: &str) -> (yes: bool)
    ensures
        yes == style.stays_inside(name@),
{
    let chars = chars_of(name);
    let n: usize = chars.len();
    if n > 0 && style.separates(chars[0]) {
        return false;
    }
    if style == PathStyle::Windows && n > 1 && chars[1] == ':' && (('a' <= chars[0] && chars[0]
        <= 'z') || ('A' <= chars[0] && chars[0] <= 'Z')) {
        return false;
    }
    let ghost mut parts: Seq<Seq<char>> = Seq::empty();
    let ghost mut part: Seq<char> = Seq::empty();
    let mut at: i128 = 0;
    let mut inside: bool = true;
    let mut len: usize = 0;
    let mut dots: bool = true;
    proof {
        assert(chars@.take(0) =~= Seq::empty());
        assert(parts.push(part) =~= seq![Seq::<char>::empty()]);
        assert(parts.take(0) =~= parts);
    }
    for i in 0..n
        invariant
            n == chars@.len(),
            style.parts(chars@.take(i as int)) == parts.push(part),
            at == level(parts),
            -i <= at <= i,
            inside == keeps_inside(parts),
            len == part.len() <= i,
            dots == (forall|k: int| 0 <= k < part.len() ==> #[trigger] part[k] == '.'),
    {
        let ghost more = chars@.take(i + 1);
        proof {
            assert(more.drop_last() =~= chars@.take(i as int));
            assert(more.last() == chars@[i as int]);
        }
        if style.separates(chars[i]) {
            let next: i128 = level_with(at, len, dots, Ghost(part), Ghost(parts));
            inside = inside && next >= 0;
            proof {
                one_more_part(parts, part);
                parts = parts.push(part);
                part = Seq::empty();
            }
            at = next;
            len = 0;
            dots = true;
        } else {
            let c: char = chars[i];
            proof {
                assert(parts.push(part).drop_last() =~= parts);
                let longer = part.push(c);
                assert forall|k: int| 0 <= k < part.len() implies #[trigger] longer[k] == part[k] by {}
                if dots && c == '.' {
                } else if dots {
                    assert(longer[part.len() as int] != '.');
                } else {
                    let k = choose|k: int| 0 <= k < part.len() && part[k] != '.';
                    assert(longer[k] != '.');
                }
                part = longer;
            }
            len = len + 1;
            dots = dots && c == '.';
        }
    }
    let last: i128 = level_with(at, len, dots, Ghost(part), Ghost(parts));
    proof {
        assert(chars@.take(n as int) =~= name@);
        one_more_part(parts, part);
    }
    inside && last >= 0
}

} // verus!
