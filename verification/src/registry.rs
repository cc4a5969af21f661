//! The benchmark variants and the names they are selected by.

use vstd::prelude::*;
use vstd::string::StringExecFns;
use crate::geometry::Order;

verus! {

/// Whether the data lives in one file or in one file per block.
#[derive(Clone, Copy, Debug, PartialEq, Eq, Structural)]
pub enum Granularity {
    LargeFile,
    SmallFiles,
}

/// What the measured phase does to each block.
#[derive(Clone, Copy, Debug, PartialEq, Eq, Structural)]
pub enum Operation {
    /// Write to a file that starts out empty.
    Write,
    /// Write again after the data has been written once.
    Update,
    /// Read data that has been written once.
    Read,
}

/// One benchmark routine: an operation, an access order and a granularity.
#[derive(Clone, Copy, Debug, PartialEq, Eq, Structural)]
pub struct Variant {
    pub granularity: Granularity,
    pub operation: Operation,
    pub order: Order,
}

/// The word for an operation in a mode name.
pub open spec fn operation_word(operation: Operation) -> Seq<char> {
    match operation {
        Operation::Write => "write"@,
        Operation::Update => "update"@,
        Operation::Read => "read"@,
    }
}

/// The word for an access order in a mode name.
pub open spec fn order_word(order: Order) -> Seq<char> {
    match order {
        Order::InOrder => "inorder"@,
        Order::Reversed => "reversed"@,
        Order::Random => "random"@,
    }
}

/// What a mode name begins with: nothing for the large file, `small_` for
/// small files.
pub open spec fn granularity_prefix(granularity: Granularity) -> Seq<char> {
    match granularity {
        Granularity::LargeFile => Seq::empty(),
        Granularity::SmallFiles => "small_"@,
    }
}

/// The name a variant is selected by, such as `write_inorder` or
/// `small_read_random`.
pub open spec fn mode_name(variant: Variant) -> Seq<char> {
    granularity_prefix(variant.granularity) + operation_word(variant.operation) + "_"@
        + order_word(variant.order)
}

/// Makes the contents of every literal used in mode names known.
pub proof fn lemma_reveal_words()
    ensures
        "write"@ == seq!['w', 'r', 'i', 't', 'e'],
        "update"@ == seq!['u', 'p', 'd', 'a', 't', 'e'],
        "read"@ == seq!['r', 'e', 'a', 'd'],
        "inorder"@ == seq!['i', 'n', 'o', 'r', 'd', 'e', 'r'],
        "reversed"@ == seq!['r', 'e', 'v', 'e', 'r', 's', 'e', 'd'],
        "random"@ == seq!['r', 'a', 'n', 'd', 'o', 'm'],
        "small_"@ == seq!['s', 'm', 'a', 'l', 'l', '_'],
        "_"@ == seq!['_'],
{
    reveal_strlit("write");
    reveal_strlit("update");
    reveal_strlit("read");
    reveal_strlit("inorder");
    reveal_strlit("reversed");
    reveal_strlit("random");
    reveal_strlit("small_");
    reveal_strlit("_");
    assert("write"@ =~= seq!['w', 'r', 'i', 't', 'e']);
    assert("update"@ =~= seq!['u', 'p', 'd', 'a', 't', 'e']);
    assert("read"@ =~= seq!['r', 'e', 'a', 'd']);
    assert("inorder"@ =~= seq!['i', 'n', 'o', 'r', 'd', 'e', 'r']);
    assert("reversed"@ =~= seq!['r', 'e', 'v', 'e', 'r', 's', 'e', 'd']);
    assert("random"@ =~= seq!['r', 'a', 'n', 'd', 'o', 'm']);
    assert("small_"@ =~= seq!['s', 'm', 'a', 'l', 'l', '_']);
    assert("_"@ =~= seq!['_']);
}

/// Where the words of a mode name begin, and the letters that tell one word
/// from another.
proof fn lemma_mode_name_letters(v: Variant)
    ensures
        ({
            let name = mode_name(v);
            let p = granularity_prefix(v.granularity).len() as int;
            let w = operation_word(v.operation).len() as int;
            &&& name.len() == p + w + 1 + order_word(v.order).len()
            &&& p + w + 2 < name.len()
            &&& name[p] == operation_word(v.operation)[0]
            &&& name[p + w + 1] == order_word(v.order)[0]
            &&& name[p + w + 2] == order_word(v.order)[1]
            &&& (v.granularity == Granularity::SmallFiles ==> name[0] == 's')
        }),
{
    lemma_reveal_words();
    let prefix = granularity_prefix(v.granularity);
    let word = operation_word(v.operation);
    let order = order_word(v.order);
    let p = prefix.len() as int;
    let w = word.len() as int;
    let head = prefix + word;
    let mid = head + "_"@;
    let name = mid + order;
    assert(name == mode_name(v));
    assert(head[p] == word[0]);
    assert(mid[p] == head[p]);
    assert(name[p] == mid[p]);
    assert(name[p + w + 1] == order[0]);
    assert(name[p + w + 2] == order[1]);
    if v.granularity == Granularity::SmallFiles {
        assert(head[0] == prefix[0]);
        assert(mid[0] == head[0]);
        assert(name[0] == mid[0]);
    }
}

/// No two variants share a name.
pub proof fn lemma_mode_name_injective(a: Variant, b: Variant)
    requires
        mode_name(a) == mode_name(b),
    ensures
        a == b,
{
    lemma_reveal_words();
    lemma_mode_name_letters(a);
    lemma_mode_name_letters(b);
    // The first letter tells the granularity, the first letter after the
    // prefix the operation, and the two letters after `_` the order.
    assert(a.granularity == b.granularity);
    assert(a.operation == b.operation);
    assert(a.order == b.order);
}

impl Variant {
    /// The name this variant is selected by.
    pub fn name(&self) -> (name: String)
        ensures
            name@ == mode_name(*self),
    {
        let mut name = match self.granularity {
            Granularity::LargeFile => String::new(),
            Granularity::SmallFiles => String::from_str("small_"),
        };
        match self.operation {
            Operation::Write => name.append("write"),
            Operation::Update => name.append("update"),
            Operation::Read => name.append("read"),
        }
        name.append("_");
        match self.order {
            Order::InOrder => name.append("inorder"),
            Order::Reversed => name.append("reversed"),
            Order::Random => name.append("random"),
        }
        name
    }
}

/// The variant at place `i` of the list of all variants: the large-file
/// variants come first; within a granularity the orders follow one another,
/// and within an order the operations.
pub open spec fn variant_at(i: int) -> Variant {
    Variant {
        granularity: seq![Granularity::LargeFile, Granularity::SmallFiles][i / 9],
        order: seq![Order::InOrder, Order::Reversed, Order::Random][(i % 9) / 3],
        operation: seq![Operation::Write, Operation::Update, Operation::Read][i % 3],
    }
}

/// Every variant, once.
pub fn all_variants() -> (all: Vec<Variant>)
    ensures
        all@ == Seq::new(18, |i: int| variant_at(i)),
        forall|v: Variant| all@.contains(v),
        all@.no_duplicates(),
{
    let mut all: Vec<Variant> = Vec::new();
    let granularities = [Granularity::LargeFile, Granularity::SmallFiles];
    let orders = [Order::InOrder, Order::Reversed, Order::Random];
    let operations = [Operation::Write, Operation::Update, Operation::Read];
    for g in 0..2usize
        invariant
            granularities@ == seq![Granularity::LargeFile, Granularity::SmallFiles],
            orders@ == seq![Order::InOrder, Order::Reversed, Order::Random],
            operations@ == seq![Operation::Write, Operation::Update, Operation::Read],
            all@.len() == 9 * g,
            forall|i: int|
                0 <= i < all@.len() ==> #[trigger] all@[i] == (Variant {
                    granularity: granularities@[i / 9],
                    order: orders@[(i % 9) / 3],
                    operation: operations@[i % 3],
                }),
    {
        for o in 0..3usize
            invariant
                g < 2,
                granularities@ == seq![Granularity::LargeFile, Granularity::SmallFiles],
                orders@ == seq![Order::InOrder, Order::Reversed, Order::Random],
                operations@ == seq![Operation::Write, Operation::Update, Operation::Read],
                all@.len() == 9 * g + 3 * o,
                forall|i: int|
                    0 <= i < all@.len() ==> #[trigger] all@[i] == (Variant {
                        granularity: granularities@[i / 9],
                        order: orders@[(i % 9) / 3],
                        operation: operations@[i % 3],
                    }),
        {
            for p in 0..3usize
                invariant
                    g < 2,
                    o < 3,
                    granularities@ == seq![Granularity::LargeFile, Granularity::SmallFiles],
                    orders@ == seq![Order::InOrder, Order::Reversed, Order::Random],
                    operations@ == seq![Operation::Write, Operation::Update, Operation::Read],
                    all@.len() == 9 * g + 3 * o + p,
                    forall|i: int|
                        0 <= i < all@.len() ==> #[trigger] all@[i] == (Variant {
                            granularity: granularities@[i / 9],
                            order: orders@[(i % 9) / 3],
                            operation: operations@[i % 3],
                        }),
            {
                all.push(
                    Variant {
                        granularity: granularities[g],
                        order: orders[o],
                        operation: operations[p],
                    },
                );
            }
        }
    }
    proof {
        assert(all@ =~= Seq::new(18, |i: int| variant_at(i)));
        assert forall|v: Variant| all@.contains(v) by {
            let g: int = if v.granularity == Granularity::LargeFile { 0 } else { 1 };
            let o: int = match v.order {
                Order::InOrder => 0,
                Order::Reversed => 1,
                Order::Random => 2,
            };
            let p: int = match v.operation {
                Operation::Write => 0,
                Operation::Update => 1,
                Operation::Read => 2,
            };
            assert(all@[9 * g + 3 * o + p] == v);
        }
        assert forall|i: int, j: int| 0 <= i < all@.len() && 0 <= j < all@.len() && i != j implies all@[i]
            != all@[j] by {
            assert(all@[i].granularity == granularities@[i / 9]);
            assert(all@[j].granularity == granularities@[j / 9]);
        }
    }
    all
}

/// Resolves a mode name. An unknown name gives `None`; a known name gives
/// the one variant that carries it.
pub fn lookup(name: &str) -> (found: Option<Variant>)
    ensures
        match found {
            Some(v) => mode_name(v) == name@,
            None => forall|v: Variant| mode_name(v) != name@,
        },
{
    let wanted = String::from_str(name);
    let all = all_variants();
    let mut i: usize = 0;
    while i < all.len()
        invariant
            i <= all@.len(),
            wanted@ == name@,
            forall|v: Variant| all@.contains(v),
            forall|j: int| 0 <= j < i ==> mode_name(#[trigger] all@[j]) != name@,
        decreases all@.len() - i,
    {
        let candidate = all[i];
        if candidate.name() == wanted {
            return Some(candidate);
        }
        i += 1;
    }
    proof {
        assert forall|v: Variant| mode_name(v) != name@ by {
            assert(all@.contains(v));
            let j = choose|j: int| 0 <= j < all@.len() && all@[j] == v;
            assert(mode_name(all@[j]) != name@);
        }
    }
    None
}

} // verus!
