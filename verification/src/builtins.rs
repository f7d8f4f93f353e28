//! The modules that every program can import, and what their members do.
use crate::text;
use crate::types::{Type, TypeModel};
use vstd::prelude::*;

verus! {

/// One member of a builtin module: the effect of calling it, and what it
/// returns.
#[derive(Debug)]
pub struct Builtin {
    pub module: String,
    pub name: String,
    pub effect: Option<String>,
    pub ret: Type,
}

/// What a checker reads of a builtin member.
pub struct BuiltinModel {
    pub effect: Option<Seq<char>>,
    pub ret: TypeModel,
}

impl View for Builtin {
    type V = BuiltinModel;

    open spec fn view(&self) -> BuiltinModel {
        BuiltinModel { effect: text::opt_text(self.effect), ret: self.ret@ }
    }
}

/// The builtin modules on offer.
#[derive(Debug)]
pub struct Builtins {
    pub members: Vec<Builtin>,
}

/// The first entry for a member of a module.
pub open spec fn first_member(
    members: Seq<Builtin>,
    module: Seq<char>,
    name: Seq<char>,
) -> Option<BuiltinModel>
    decreases members.len(),
{
    if members.len() == 0 {
        None
    } else {
        match first_member(members.drop_last(), module, name) {
            Some(b) => Some(b),
            None => if members.last().module@ == module && members.last().name@ == name {
                Some(members.last()@)
            } else {
                None
            },
        }
    }
}

impl Builtins {
    /// Whether a name is that of a builtin module.
    pub open spec fn has_module(self, name: Seq<char>) -> bool {
        exists|i: int| 0 <= i < self.members@.len() && #[trigger] self.members@[i].module@ == name
    }

    /// What is known of a member of a module.
    pub open spec fn member(self, module: Seq<char>, name: Seq<char>) -> Option<BuiltinModel> {
        first_member(self.members@, module, name)
    }

    /// Whether a name is that of a builtin module.
    pub fn is_module(&self, name: &String) -> (r: bool)
        ensures
            r == self.has_module(name@),
    {
        let n: usize = self.members.len();
        let mut i: usize = 0;
        while i < n
            invariant
                n == self.members.len(),
                i <= n,
                forall|j: int| 0 <= j < i ==> #[trigger] self.members@[j].module@ != name@,
            decreases n - i,
        {
            if self.members[i].module == *name {
                return true;
            }
            i = i + 1;
        }
        false
    }

    /// The entry for a member of a module.
    pub fn module_member(&self, module: &String, name: &String) -> (r: Option<&Builtin>)
        ensures
            r is Some <==> self.member(module@, name@) is Some,
            r matches Some(b) ==> self.member(module@, name@) == Some(b@),
    {
        let n: usize = self.members.len();
        let mut i: usize = 0;
        while i < n
            invariant
                n == self.members.len(),
                i <= n,
                first_member(self.members@.take(i as int), module@, name@) is None,
            decreases n - i,
        {
            assert(self.members@.take(i + 1).drop_last() =~= self.members@.take(i as int));
            if self.members[i].module == *module && self.members[i].name == *name {
                proof {
                    lemma_first_member(self.members@, i + 1, module@, name@);
                }
                return Some(&self.members[i]);
            }
            i = i + 1;
        }
        assert(self.members@.take(n as int) =~= self.members@);
        None
    }
}

proof fn lemma_first_member(members: Seq<Builtin>, k: int, module: Seq<char>, name: Seq<char>)
    requires
        0 <= k <= members.len(),
        first_member(members.take(k), module, name) is Some,
    ensures
        first_member(members, module, name) == first_member(members.take(k), module, name),
    decreases members.len(),
{
    if k == members.len() {
        assert(members.take(k) =~= members);
    } else {
        assert(members.drop_last().take(k) =~= members.take(k));
        lemma_first_member(members.drop_last(), k, module, name);
    }
}

} // verus!
