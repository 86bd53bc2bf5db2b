//! File name patterns in which `*` stands for any run of bytes.
use vstd::prelude::*;
use vstd::string::StringSliceAdditionalSpecFns;

verus! {

/// The byte `*`.
pub const STAR: u8 = 42;

/// `name` is an instance of `pattern`.
pub open spec fn fits(pattern: Seq<u8>, name: Seq<u8>) -> bool
    decreases pattern.len(), name.len(),
{
    if pattern.len() == 0 {
        name.len() == 0
    } else if pattern[0] == STAR {
        fits(pattern.skip(1), name) || (name.len() > 0 && fits(pattern, name.skip(1)))
    } else {
        name.len() > 0 && name[0] == pattern[0] && fits(pattern.skip(1), name.skip(1))
    }
}

/// Whether each tail of a name fits one tail of a pattern: the tails that
/// hold anything by where they start, and the empty one.
struct TableRow {
    tails: Vec<bool>,
    end: bool,
}

impl TableRow {
    /// The row for `pattern` over the tails of `name`.
    spec fn is_for(&self, pattern: Seq<u8>, name: Seq<u8>) -> bool {
        &&& self.tails@.len() == name.len()
        &&& self.end == fits(pattern, Seq::empty())
        &&& forall|k: int| 0 <= k < name.len() ==> #[trigger] self.tails@[k] == fits(pattern, name.skip(k))
    }
}

/// The row of the pattern that starts at `i`, given the next one's.
fn table_row(p: &[u8], n: &[u8], i: usize, next: &TableRow) -> (row: TableRow)
    requires
        i < p@.len(),
        next.is_for(p@.skip(i + 1), n@),
    ensures
        row.is_for(p@.skip(i as int), n@),
{
    let total: usize = n.len();
    let ghost (tail, rest) = (p@.skip(i as int), p@.skip(i + 1));
    proof {
        assert(tail.skip(1) =~= rest);
        assert(tail[0] == p@[i as int]);
    }
    let star: bool = p[i] == STAR;
    let end: bool = star && next.end;
    let mut tails: Vec<bool> = Vec::new();
    for k in 0usize..total
        invariant
            tails@.len() == k,
    {
        tails.push(false);
    }
    let mut j: usize = total;
    while j > 0
        invariant
            i < p@.len(),
            total == n@.len(),
            j <= total,
            tails@.len() == total,
            next.is_for(rest, n@),
            end == fits(tail, Seq::empty()),
            star == (p@[i as int] == STAR),
            tail.skip(1) == rest,
            tail.len() > 0,
            tail[0] == p@[i as int],
            forall|k: int| j <= k < total ==> #[trigger] tails@[k] == fits(tail, n@.skip(k)),
        decreases j,
    {
        let at: usize = j - 1;
        proof {
            assert(n@.skip(at as int).skip(1) =~= n@.skip(at + 1));
            assert(n@.skip(at as int)[0] == n@[at as int]);
            if j == total {
                assert(n@.skip(j as int) =~= Seq::empty());
            }
        }
        let v: bool = if star {
            next.tails[at] || (if j < total {
                tails[j]
            } else {
                end
            })
        } else {
            n[at] == p[i] && (if j < total {
                next.tails[j]
            } else {
                next.end
            })
        };
        tails[at] = v;
        j = at;
    }
    TableRow { tails, end }
}

/// Whether a name is an instance of a pattern.
pub fn glob_matches(pattern: &str, name: &str) -> (r: bool)
    ensures
        r == fits(pattern.spec_bytes(), name.spec_bytes()),
{
    let p: &[u8] = pattern.as_bytes();
    let n: &[u8] = name.as_bytes();
    let total: usize = n.len();
    let mut tails: Vec<bool> = Vec::new();
    for k in 0usize..total
        invariant
            total == n@.len(),
            tails@.len() == k,
            forall|m: int| 0 <= m < k ==> !#[trigger] tails@[m],
    {
        tails.push(false);
    }
    let mut row: TableRow = TableRow { tails, end: true };
    let mut i: usize = p.len();
    proof {
        assert(p@.skip(i as int) =~= Seq::empty());
        assert forall|k: int| 0 <= k < n@.len() implies #[trigger] row.tails@[k] == fits(
            p@.skip(i as int),
            n@.skip(k),
        ) by {
            assert(n@.skip(k).len() == n@.len() - k);
        }
    }
    while i > 0
        invariant
            i <= p@.len(),
            row.is_for(p@.skip(i as int), n@),
        decreases i,
    {
        i = i - 1;
        row = table_row(p, n, i, &row);
    }
    proof {
        assert(p@.skip(0) =~= p@);
        assert(n@.skip(0) =~= n@);
        if n@.len() == 0 {
            assert(n@ =~= Seq::empty());
        }
    }
    if total == 0 {
        row.end
    } else {
        row.tails[0]
    }
}

/// A pattern without a star fits its own text and nothing else.
pub proof fn law_a_plain_pattern_names_itself(pattern: Seq<u8>, name: Seq<u8>)
    requires
        !pattern.contains(STAR),
    ensures
        fits(pattern, name) <==> pattern == name,
    decreases pattern.len(),
{
    if pattern.len() > 0 {
        assert(pattern.contains(pattern[0]));
        let (p, n) = (pattern.skip(1), name.skip(1));
        assert forall|b: u8| p.contains(b) implies pattern.contains(b) by {
            let k = p.index_of(b);
            assert(pattern[k + 1] == b);
        }
        law_a_plain_pattern_names_itself(p, n);
        if name.len() > 0 {
            assert(pattern =~= seq![pattern[0]] + p);
            assert(name =~= seq![name[0]] + n);
        }
    } else {
        assert(name.len() == 0 ==> pattern =~= name);
    }
}

/// A lone star fits everything.
pub proof fn law_a_star_fits_everything(name: Seq<u8>)
    ensures
        fits(seq![STAR], name),
    decreases name.len(),
{
    let star = seq![STAR];
    reveal_with_fuel(fits, 2);
    assert(star.skip(1) =~= Seq::empty());
    if name.len() > 0 {
        law_a_star_fits_everything(name.skip(1));
    }
}

/// A star and what follows it fit a name exactly when what follows it fits
/// some end of the name.
proof fn lemma_star_skips(rest: Seq<u8>, name: Seq<u8>)
    ensures
        fits(seq![42u8] + rest, name) <==> exists|k: int| 0 <= k <= name.len() && fits(rest, #[trigger] name.skip(k)),
    decreases name.len(),
{
    let pattern = seq![42u8] + rest;
    assert(pattern.skip(1) =~= rest);
    assert(name.skip(0) =~= name);
    if name.len() > 0 {
        let tail = name.skip(1);
        lemma_star_skips(rest, tail);
        if fits(pattern, tail) {
            let k = choose|k: int| 0 <= k <= tail.len() && fits(rest, #[trigger] tail.skip(k));
            assert(name.skip(k + 1) =~= tail.skip(k));
        }
        if exists|k: int| 0 <= k <= name.len() && fits(rest, #[trigger] name.skip(k)) {
            let k = choose|k: int| 0 <= k <= name.len() && fits(rest, #[trigger] name.skip(k));
            if k > 0 {
                assert(tail.skip(k - 1) =~= name.skip(k));
            }
        }
    } else {
        if exists|k: int| 0 <= k <= name.len() && fits(rest, #[trigger] name.skip(k)) {
            let k = choose|k: int| 0 <= k <= name.len() && fits(rest, #[trigger] name.skip(k));
            assert(k == 0);
        }
    }
}

/// What a pattern means, star by star: the bytes before the first `*` begin
/// the name, the star stands for any run of bytes behind them, and what
/// follows the star fits what is left of the name.
pub proof fn law_a_star_stands_for_any_run(head: Seq<u8>, rest: Seq<u8>, name: Seq<u8>)
    requires
        !head.contains(42u8),
    ensures
        fits(head + seq![42u8] + rest, name) <==> exists|k: int|
            {
                &&& head.len() <= k <= name.len()
                &&& name.take(head.len() as int) == head
                &&& fits(rest, #[trigger] name.skip(k))
            },
    decreases head.len(),
{
    let pattern = head + seq![42u8] + rest;
    if head.len() == 0 {
        assert(pattern =~= seq![42u8] + rest);
        assert(name.take(0) =~= head);
        lemma_star_skips(rest, name);
    } else {
        assert(head.contains(head[0]));
        let shorter = head.skip(1);
        assert forall|b: u8| shorter.contains(b) implies head.contains(b) by {
            assert(head[shorter.index_of(b) + 1] == b);
        }
        assert(pattern.skip(1) =~= shorter + seq![42u8] + rest);
        assert(pattern[0] == head[0]);
        if name.len() > 0 {
            let tail = name.skip(1);
            law_a_star_stands_for_any_run(shorter, rest, tail);
            if fits(pattern, name) {
                let k = choose|k: int|
                    {
                        &&& shorter.len() <= k <= tail.len()
                        &&& tail.take(shorter.len() as int) == shorter
                        &&& fits(rest, #[trigger] tail.skip(k))
                    };
                assert(name.skip(k + 1) =~= tail.skip(k));
                assert forall|i: int| 0 <= i < head.len() implies name.take(head.len() as int)[i] == head[i] by {
                    if i > 0 {
                        assert(tail.take(shorter.len() as int)[i - 1] == shorter[i - 1]);
                    }
                }
                assert(name.take(head.len() as int) =~= head);
            }
            if exists|k: int|
                {
                    &&& head.len() <= k <= name.len()
                    &&& name.take(head.len() as int) == head
                    &&& fits(rest, #[trigger] name.skip(k))
                } {
                let k = choose|k: int|
                    {
                        &&& head.len() <= k <= name.len()
                        &&& name.take(head.len() as int) == head
                        &&& fits(rest, #[trigger] name.skip(k))
                    };
                assert(name.take(head.len() as int)[0] == head[0]);
                assert(tail.skip(k - 1) =~= name.skip(k));
                assert forall|i: int| 0 <= i < shorter.len() implies tail.take(shorter.len() as int)[i]
                    == shorter[i] by {
                    assert(name.take(head.len() as int)[i + 1] == head[i + 1]);
                }
                assert(tail.take(shorter.len() as int) =~= shorter);
            }
        }
    }
}

} // verus!
