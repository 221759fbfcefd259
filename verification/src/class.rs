//! Character classes.
//!
//! Classes form a tree with the base class at the root; a class can have
//! many children but only one parent. The tree itself is static data;
//! its user-visible names and details are resolved through the
//! localization repository, keyed by the class identifier.

use crate::text::TextRepository;
use vstd::prelude::*;
use vstd::string::StringExecFns;

verus! {

/// One class and its subclasses.
#[derive(Debug)]
pub struct ClassNode {
    pub name: &'static str,
    pub children: Vec<ClassNode>,
}

/// Localized description of one class: its display name and detail text.
#[derive(Debug, Clone, Default)]
pub struct ClassTreeDescription {
    pub name: String,
    pub detail: String,
}

/// All class identifiers in the subtree rooted at `n`, preorder.
pub open spec fn subtree_names(n: ClassNode) -> Seq<Seq<char>>
    decreases n,
{
    seq![n.name@] + subtree_names_all(n.children@)
}

/// The identifiers of a forest of subtrees, in order.
pub open spec fn subtree_names_all(cs: Seq<ClassNode>) -> Seq<Seq<char>>
    decreases cs,
{
    if cs.len() == 0 {
        Seq::empty()
    } else {
        subtree_names(cs[0]) + subtree_names_all(cs.skip(1))
    }
}

/// The descriptions `r` are exactly the localization lookups for
/// `names`, in order: for each identifier, the message under the
/// identifier itself and the `desc` attribute beside it.
pub open spec fn descriptions_match(
    r: Seq<(String, ClassTreeDescription)>,
    names: Seq<Seq<char>>,
    text: TextRepository,
) -> bool {
    &&& r.len() == names.len()
    &&& forall|i: int|
        0 <= i < r.len() ==> (#[trigger] r[i]).0@ == names[i] && r[i].1.name@ == text.message_of(
            names[i],
            Seq::empty(),
        ) && r[i].1.detail@ == text.attr_of(names[i], "desc"@, Seq::empty())
}

/// Splitting a forest after its first `j` trees splits its identifiers.
proof fn lemma_names_all_take(cs: Seq<ClassNode>, j: int)
    requires
        0 <= j < cs.len(),
    ensures
        subtree_names_all(cs.take(j + 1)) == subtree_names_all(cs.take(j)) + subtree_names(cs[j]),
    decreases j,
{
    if j == 0 {
        assert(cs.take(1)[0] == cs[0]);
        assert(cs.take(1).skip(1) =~= Seq::<ClassNode>::empty());
        assert(cs.take(0) =~= Seq::<ClassNode>::empty());
        assert(subtree_names_all(cs.take(1)) =~= subtree_names_all(cs.take(0)) + subtree_names(
            cs[0],
        ));
    } else {
        lemma_names_all_take(cs.skip(1), j - 1);
        assert(cs.take(j + 1)[0] == cs[0]);
        assert(cs.take(j + 1).skip(1) =~= cs.skip(1).take(j));
        assert(cs.take(j)[0] == cs[0]);
        assert(cs.take(j).skip(1) =~= cs.skip(1).take(j - 1));
        assert(cs.skip(1)[j - 1] == cs[j]);
        assert(subtree_names(cs[0]) + (subtree_names_all(cs.skip(1).take(j - 1)) + subtree_names(
            cs[j],
        )) =~= (subtree_names(cs[0]) + subtree_names_all(cs.skip(1).take(j - 1))) + subtree_names(
            cs[j],
        ));
    }
}

impl ClassNode {
    /// The localized description of every class in this subtree, in
    /// preorder: for each class, the message under its identifier and
    /// the `desc` attribute beside it, through the same repository.
    pub fn get_description(&self, text: &TextRepository) -> (r: Vec<(String, ClassTreeDescription)>)
        ensures
            descriptions_match(r@, subtree_names(*self), *text),
        decreases *self,
    {
        let own = ClassTreeDescription {
            name: text.get_message(self.name, None),
            detail: text.get_attr(self.name, "desc", None),
        };
        let mut r: Vec<(String, ClassTreeDescription)> = Vec::new();
        r.push((String::from_str(self.name), own));
        proof {
            assert(self.children@.take(0) =~= Seq::<ClassNode>::empty());
            assert(seq![self.name@] + subtree_names_all(self.children@.take(0)) =~= seq![
                self.name@,
            ]);
        }
        let mut i: usize = 0;
        while i < self.children.len()
            invariant
                i <= self.children@.len(),
                descriptions_match(
                    r@,
                    seq![self.name@] + subtree_names_all(self.children@.take(i as int)),
                    *text,
                ),
            decreases self.children@.len() - i,
        {
            let child = &self.children[i];
            proof {
                assert(decreases_to!(*self => self.children));
                assert(decreases_to!(self.children => self.children@));
                assert(decreases_to!(self.children@ => self.children@[i as int]));
            }
            let mut sub = child.get_description(text);
            let ghost prev = r@;
            let ghost prev_names = seq![self.name@] + subtree_names_all(
                self.children@.take(i as int),
            );
            let ghost sub_names = subtree_names(self.children@[i as int]);
            let ghost subv = sub@;
            r.append(&mut sub);
            proof {
                lemma_names_all_take(self.children@, i as int);
                let names = seq![self.name@] + subtree_names_all(
                    self.children@.take(i as int + 1),
                );
                assert(names =~= prev_names + sub_names);
                assert forall|k: int| 0 <= k < r@.len() implies (#[trigger] r@[k]).0@ == names[k]
                    && r@[k].1.name@ == text.message_of(names[k], Seq::empty())
                    && r@[k].1.detail@ == text.attr_of(names[k], "desc"@, Seq::empty()) by {
                    if k < prev.len() {
                        assert(r@[k] == prev[k]);
                        assert(names[k] == prev_names[k]);
                    } else {
                        assert(r@[k] == subv[k - prev.len()]);
                        assert(names[k] == sub_names[k - prev.len()]);
                    }
                }
            }
            i = i + 1;
        }
        proof {
            assert(self.children@.take(self.children@.len() as int) =~= self.children@);
        }
        r
    }
}

/// A leaf class, with no subclasses.
pub fn class_leaf(name: &'static str) -> (r: ClassNode)
    ensures
        r.name == name,
        r.children@.len() == 0,
        subtree_names(r) == seq![name@],
{
    let r = ClassNode { name, children: Vec::new() };
    proof {
        assert(subtree_names(r) =~= seq![name@]);
    }
    r
}

/// Identifiers of the default citizen branch, preorder.
pub open spec fn citizen_names() -> Seq<Seq<char>> {
    seq!["Citizen"@, "Rogue"@, "Merchant"@, "Craftsperson"@]
}

/// Identifiers of the default fighter branch, preorder.
pub open spec fn fighter_names() -> Seq<Seq<char>> {
    seq!["Fighter"@, "Berserker"@, "Paladin"@, "Ranger"@]
}

/// Identifiers of the default scholar branch, preorder.
pub open spec fn scholar_names() -> Seq<Seq<char>> {
    seq!["Scholar"@, "Wizard"@, "Mechanic"@, "Alchemist"@]
}

/// Identifiers of the default cleric branch, preorder.
pub open spec fn cleric_names() -> Seq<Seq<char>> {
    seq!["Cleric"@, "Priest"@, "Bard"@, "Gestalt"@]
}

/// Identifiers of the whole default tree, preorder.
pub open spec fn default_tree_names() -> Seq<Seq<char>> {
    seq!["Base"@] + citizen_names() + fighter_names() + scholar_names() + cleric_names()
}

/// A branch node over three leaves, named as given.
fn branch3(
    name: &'static str,
    l1: &'static str,
    l2: &'static str,
    l3: &'static str,
) -> (r: ClassNode)
    ensures
        subtree_names(r) == seq![name@, l1@, l2@, l3@],
{
    let children = vec![class_leaf(l1), class_leaf(l2), class_leaf(l3)];
    let r = ClassNode { name, children };
    proof {
        let cs = r.children@;
        let cs1 = cs.skip(1);
        let cs2 = cs1.skip(1);
        let cs3 = cs2.skip(1);
        assert(cs1[0] == cs[1]);
        assert(cs2[0] == cs[2]);
        assert(cs3.len() == 0);
        assert(subtree_names_all(cs3) =~= Seq::<Seq<char>>::empty());
        assert(subtree_names_all(cs2) =~= subtree_names(cs[2]));
        assert(subtree_names_all(cs1) =~= subtree_names(cs[1]) + subtree_names(cs[2]));
        assert(subtree_names_all(cs) =~= subtree_names(cs[0]) + (subtree_names(cs[1])
            + subtree_names(cs[2])));
        assert(subtree_names(r) =~= seq![name@, l1@, l2@, l3@]);
    }
    r
}

/// The default citizen class and its subclasses.
pub fn default_citizen() -> (r: ClassNode)
    ensures
        subtree_names(r) == citizen_names(),
{
    let r = branch3("Citizen", "Rogue", "Merchant", "Craftsperson");
    proof {
        assert(subtree_names(r) =~= citizen_names());
    }
    r
}

/// The default fighter class and its subclasses.
pub fn default_fighter() -> (r: ClassNode)
    ensures
        subtree_names(r) == fighter_names(),
{
    let r = branch3("Fighter", "Berserker", "Paladin", "Ranger");
    proof {
        assert(subtree_names(r) =~= fighter_names());
    }
    r
}

/// The default scholar class and its subclasses.
pub fn default_scholar() -> (r: ClassNode)
    ensures
        subtree_names(r) == scholar_names(),
{
    let r = branch3("Scholar", "Wizard", "Mechanic", "Alchemist");
    proof {
        assert(subtree_names(r) =~= scholar_names());
    }
    r
}

/// The default cleric class and its subclasses.
pub fn default_cleric() -> (r: ClassNode)
    ensures
        subtree_names(r) == cleric_names(),
{
    let r = branch3("Cleric", "Priest", "Bard", "Gestalt");
    proof {
        assert(subtree_names(r) =~= cleric_names());
    }
    r
}

/// The default main classes, in their fixed order.
pub fn default_main_classes() -> (r: Vec<ClassNode>)
    ensures
        subtree_names_all(r@) == citizen_names() + fighter_names() + scholar_names()
            + cleric_names(),
{
    let r = vec![default_citizen(), default_fighter(), default_scholar(), default_cleric()];
    proof {
        let cs = r@;
        let cs1 = cs.skip(1);
        let cs2 = cs1.skip(1);
        let cs3 = cs2.skip(1);
        let cs4 = cs3.skip(1);
        assert(cs1[0] == cs[1]);
        assert(cs2[0] == cs[2]);
        assert(cs3[0] == cs[3]);
        assert(cs4.len() == 0);
        assert(subtree_names_all(cs4) =~= Seq::<Seq<char>>::empty());
        assert(subtree_names_all(cs3) =~= subtree_names(cs[3]));
        assert(subtree_names_all(cs2) =~= subtree_names(cs[2]) + subtree_names(cs[3]));
        assert(subtree_names_all(cs1) =~= subtree_names(cs[1]) + (subtree_names(cs[2])
            + subtree_names(cs[3])));
        assert(subtree_names_all(cs) =~= citizen_names() + fighter_names() + scholar_names()
            + cleric_names());
    }
    r
}

/// The default root: the base class over the main classes.
pub fn default_class_node() -> (r: ClassNode)
    ensures
        subtree_names(r) == default_tree_names(),
{
    let r = ClassNode { name: "Base", children: default_main_classes() };
    proof {
        assert(subtree_names(r) =~= default_tree_names());
    }
    r
}

/// The class tree, rooted at the base class.
#[derive(Debug)]
pub struct ClassTree {
    pub root: ClassNode,
}

impl Default for ClassTree {
    /// The default tree.
    fn default() -> (r: ClassTree)
        ensures
            subtree_names(r.root) == default_tree_names(),
    {
        ClassTree::new()
    }
}

impl ClassTree {
    /// The default tree: every class the game starts with.
    pub fn new() -> (r: ClassTree)
        ensures
            subtree_names(r.root) == default_tree_names(),
    {
        ClassTree { root: default_class_node() }
    }

    /// The localized descriptions of every class in the tree, preorder.
    pub fn get_descriptions(&self, text: &TextRepository) -> (r: Vec<
        (String, ClassTreeDescription),
    >)
        ensures
            descriptions_match(r@, subtree_names(self.root), *text),
    {
        self.root.get_description(text)
    }
}

} // verus!
