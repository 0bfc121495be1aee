//! Named ASCII diagrams that thoughts may carry.
use vstd::prelude::*;
use crate::text::chars_of;

verus! {

/// Number of diagrams.
pub const TEMPLATE_COUNT: usize = 5;

/// Name of diagram `k`.
pub open spec fn template_key(k: int) -> Seq<char> {
    if k == 0 {
        "neural"@
    } else if k == 1 {
        "tree"@
    } else if k == 2 {
        "circuit"@
    } else if k == 3 {
        "feedback"@
    } else {
        "chain"@
    }
}

/// Text of diagram `k`.
pub open spec fn template_art(k: int) -> Seq<char> {
    if k == 0 {
        NEURAL@
    } else if k == 1 {
        TREE@
    } else if k == 2 {
        CIRCUIT@
    } else if k == 3 {
        FEEDBACK@
    } else {
        CHAIN@
    }
}

pub const NEURAL: &'static str = "
    ┌─[Input]─┐    ┌─(Process)─┐    ┌─[Output]─┐
    └────┬────┘    └─────┬─────┘    └────┬────┘
         │               │               │
         └───────── Feedback Loop ───────┘
    ";

pub const TREE: &'static str = "
           ┌──[Root]──┐
           │          │
     ┌─────┴────┐    └────┐
     │          │         │
   [Node A]  [Node B]  [Node C]
     │          │         │
  ┌──┴──┐   ┌──┴──┐   ┌──┴──┐
  │     │   │     │   │     │
[Leaf] [Leaf] [Leaf] [Leaf] [Leaf]
    ";

pub const CIRCUIT: &'static str = "
    ┌────────[Module]────────┐
    │     ┌──────────┐      │
    │  ───┤ Process  ├───   │
    │     └──────────┘      │
    └──────────┬───────────┘
               │
    ┌──────────┼───────────┐
    │     ┌────┴─────┐     │
    │     │ Output   │     │
    │     └──────────┘     │
    └────────────────────┘
    ";

pub const FEEDBACK: &'static str = "
    ┌───────────────────┐
    │    ┌─────────┐    │←──────┐
    │ ───┤ Process ├─── │       │
    │    └─────────┘    │       │
    └────────┬──────────┘       │
             ↓                   │
    ┌────────┴──────────┐       │
    │   ┌──────────┐    │       │
    │   │ Feedback │    ├───────┘
    │   └──────────┘    │
    └───────────────────┘
    ";

pub const CHAIN: &'static str = "
    ┌─────────┐     ┌─────────┐     ┌─────────┐
    │ Prior   │════>│ Current │════>│  Next   │
    └────┬────┘     └────┬────┘     └────┬────┘
         │               │               │
         └──────── Evolution ────────────┘
    ";

fn name_of(k: usize) -> (r: &'static str)
    requires
        k < TEMPLATE_COUNT,
    ensures
        r@ == template_key(k as int),
{
    if k == 0 {
        "neural"
    } else if k == 1 {
        "tree"
    } else if k == 2 {
        "circuit"
    } else if k == 3 {
        "feedback"
    } else {
        "chain"
    }
}

fn art_of(k: usize) -> (r: &'static str)
    requires
        k < TEMPLATE_COUNT,
    ensures
        r@ == template_art(k as int),
{
    if k == 0 {
        NEURAL
    } else if k == 1 {
        TREE
    } else if k == 2 {
        CIRCUIT
    } else if k == 3 {
        FEEDBACK
    } else {
        CHAIN
    }
}

fn same_chars(a: &Vec<char>, b: &Vec<char>) -> (r: bool)
    ensures
        r == (a@ == b@),
{
    if a.len() != b.len() {
        return false;
    }
    let mut i: usize = 0;
    while i < a.len()
        invariant
            a.len() == b.len(),
            i <= a.len(),
            forall|j: int| 0 <= j < i ==> a@[j] == b@[j],
        decreases a.len() - i,
    {
        if a[i] != b[i] {
            return false;
        }
        i = i + 1;
    }
    assert(a@ =~= b@);
    true
}

/// The diagram named `template_name`, if there is one.
pub fn get_ascii_template(template_name: &str) -> (r: Option<&'static str>)
    ensures
        r is Some <==> exists|k: int| 0 <= k < TEMPLATE_COUNT && template_name@ == #[trigger] template_key(k),
        forall|k: int|
            0 <= k < TEMPLATE_COUNT && template_name@ == #[trigger] template_key(k) ==> (r matches Some(t)
                && t@ == template_art(k)),
{
    let wanted = chars_of(template_name);
    let mut k: usize = 0;
    while k < TEMPLATE_COUNT
        invariant
            k <= TEMPLATE_COUNT,
            wanted@ == template_name@,
            forall|j: int| 0 <= j < k ==> template_name@ != #[trigger] template_key(j),
        decreases TEMPLATE_COUNT - k,
    {
        if same_chars(&wanted, &chars_of(name_of(k))) {
            proof {
                assert forall|j: int| 0 <= j < TEMPLATE_COUNT && template_name@ == #[trigger] template_key(j)
                    implies j == k by {
                    reveal_strlit("neural");
                    reveal_strlit("tree");
                    reveal_strlit("circuit");
                    reveal_strlit("feedback");
                    reveal_strlit("chain");
                    assert("neural"@.len() == 6);
                    assert("tree"@.len() == 4);
                    assert("circuit"@.len() == 7);
                    assert("feedback"@.len() == 8);
                    assert("chain"@.len() == 5);
                    assert(template_key(j).len() == template_key(k as int).len());
                }
            }
            return Some(art_of(k));
        }
        k = k + 1;
    }
    None
}

/// The names of all diagrams.
pub fn list_templates() -> (r: Vec<&'static str>)
    ensures
        r@.len() == TEMPLATE_COUNT,
        forall|k: int| 0 <= k < TEMPLATE_COUNT ==> (#[trigger] r@[k])@ == template_key(k),
{
    let mut out: Vec<&'static str> = Vec::new();
    let mut k: usize = 0;
    while k < TEMPLATE_COUNT
        invariant
            k <= TEMPLATE_COUNT,
            out@.len() == k,
            forall|j: int| 0 <= j < k ==> (#[trigger] out@[j])@ == template_key(j),
        decreases TEMPLATE_COUNT - k,
    {
        out.push(name_of(k));
        k = k + 1;
    }
    out
}

} // verus!
