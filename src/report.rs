use vstd::prelude::*;

use crate::groups::CollisionGroup;

verus! {

/// The character of a decimal digit.
pub open spec fn digit_char(d: nat) -> char {
    ((48 + d) as u8) as char
}

/// The decimal form of a number, without leading zeros.
pub open spec fn decimal(n: nat) -> Seq<char>
    decreases n,
{
    if n < 10 {
        seq![digit_char(n)]
    } else {
        decimal(n / 10).push(digit_char(n % 10))
    }
}

/// One line per path, each indented by four spaces.
pub open spec fn path_lines(paths: Seq<String>) -> Seq<char>
    decreases paths.len(),
{
    if paths.len() == 0 {
        Seq::empty()
    } else {
        path_lines(paths.drop_last()) + "    "@ + paths.last()@ + "\n"@
    }
}

/// A group as printed: a blank line, the header, the dimensions, the paths.
pub open spec fn group_text(g: CollisionGroup) -> Seq<char> {
    "\ncollision:\n  "@ + decimal(g.width as nat) + " x "@ + decimal(g.height as nat) + "\n"@
        + path_lines(g.paths@)
}

/// The report of a run: its groups as printed, one after the other.
pub open spec fn report_text(groups: Seq<CollisionGroup>) -> Seq<char>
    decreases groups.len(),
{
    if groups.len() == 0 {
        Seq::empty()
    } else {
        report_text(groups.drop_last()) + group_text(groups.last())
    }
}

fn push_decimal(s: &mut String, n: u32)
    ensures
        final(s)@ == old(s)@ + decimal(n as nat),
    decreases n,
{
    let ghost start = s@;
    if n >= 10 {
        push_decimal(s, n / 10);
    }
    let d: u8 = (n % 10) as u8;
    s.push((48u8 + d) as char);
    assert(s@ =~= start + decimal(n as nat));
}

/// The text that a run prints for its collision groups.
pub fn render_report(groups: &Vec<CollisionGroup>) -> (r: String)
    ensures
        r@ == report_text(groups@),
{
    let mut r = String::new();
    let mut i: usize = 0;
    while i < groups.len()
        invariant
            i <= groups.len(),
            r@ == report_text(groups@.subrange(0, i as int)),
        decreases groups.len() - i,
    {
        let g = &groups[i];
        let ghost before = r@;
        assert(groups@.subrange(0, i + 1).drop_last() =~= groups@.subrange(0, i as int));
        r.append("\ncollision:\n  ");
        push_decimal(&mut r, g.width);
        r.append(" x ");
        push_decimal(&mut r, g.height);
        r.append("\n");
        let ghost header = r@;
        let mut j: usize = 0;
        while j < g.paths.len()
            invariant
                j <= g.paths.len(),
                r@ == header + path_lines(g.paths@.subrange(0, j as int)),
            decreases g.paths.len() - j,
        {
            assert(g.paths@.subrange(0, j + 1).drop_last() =~= g.paths@.subrange(0, j as int));
            r.append("    ");
            r.append(g.paths[j].as_str());
            r.append("\n");
            assert(r@ =~= header + path_lines(g.paths@.subrange(0, j + 1)));
            j += 1;
        }
        assert(g.paths@.subrange(0, g.paths.len() as int) =~= g.paths@);
        assert(r@ =~= before + group_text(*g));
        i += 1;
    }
    assert(groups@.subrange(0, groups.len() as int) =~= groups@);
    r
}

} // verus!
