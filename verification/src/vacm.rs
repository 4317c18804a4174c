//! View-based access control: who may read or write which subtree.

use vstd::prelude::*;

use crate::oid::Oid;
use crate::value::bytes_eq;

verus! {

/// How the context prefix of an access entry is compared with the context of a request.
#[derive(Clone, Copy, Debug, PartialEq, Eq, Structural)]
pub enum ContextMatch {
    /// The context must be the prefix itself.
    Exact,
    /// The context must begin with the prefix.
    Prefix,
}

/// Whether a view family adds its subtree to the view or takes it away.
#[derive(Clone, Copy, Debug, PartialEq, Eq, Structural)]
pub enum ViewTreeFamilyType {
    /// included(1).
    Included,
    /// excluded(2).
    Excluded,
}

impl ViewTreeFamilyType {
    /// The number carried on the wire.
    pub open spec fn code_of(self) -> i64 {
        match self {
            ViewTreeFamilyType::Included => 1,
            ViewTreeFamilyType::Excluded => 2,
        }
    }

    /// The number carried on the wire.
    pub fn code(self) -> (r: i64)
        ensures
            r == self.code_of(),
    {
        match self {
            ViewTreeFamilyType::Included => 1,
            ViewTreeFamilyType::Excluded => 2,
        }
    }
}

/// The kind of access that is checked.
#[derive(Clone, Copy, Debug, PartialEq, Eq, Structural)]
pub enum AccessView {
    /// GET, GETNEXT and GETBULK.
    Read,
    /// SET.
    Write,
    /// Notifications.
    Notify,
}

/// Assigns a security name to a group.
#[derive(Debug)]
pub struct VacmGroup {
    /// The security model (1 = v1, 2 = v2c, 3 = USM).
    pub security_model: i32,
    /// The community or user name.
    pub security_name: Vec<u8>,
    /// The group.
    pub group: Vec<u8>,
}

/// Assigns views to a group.
#[derive(Debug)]
pub struct VacmAccess {
    /// The group.
    pub group: Vec<u8>,
    /// The context, or the beginning of it.
    pub context_prefix: Vec<u8>,
    /// The security model; 0 stands for any.
    pub security_model: i32,
    /// The least security level.
    pub security_level: i32,
    /// How the context is compared.
    pub context_match: ContextMatch,
    /// The view for reading.
    pub read_view: Option<Vec<u8>>,
    /// The view for writing.
    pub write_view: Option<Vec<u8>>,
    /// The view for notifications.
    pub notify_view: Option<Vec<u8>>,
}

/// One family of subtrees of a view.
#[derive(Debug)]
pub struct VacmView {
    /// The subtree.
    pub subtree: Oid,
    /// One bit per arc, from the highest bit of the first byte; a zero bit lets the arc
    /// differ, and bits beyond the end are ones.
    pub mask: Vec<u8>,
    /// Whether the family is in the view.
    pub typ: ViewTreeFamilyType,
}

/// The access-control configuration.
#[derive(Debug)]
pub struct Vacm {
    contexts: Vec<Vec<u8>>,
    groups: Vec<VacmGroup>,
    access: Vec<VacmAccess>,
    views: Vec<(Vec<u8>, VacmView)>,
}

/// Who asks, and in which context.
#[verifier::ext_equal]
pub struct Requester {
    pub model: i32,
    pub name: Seq<u8>,
    pub level: i32,
    pub context: Seq<u8>,
}

/// Whether bit `i` of the mask asks for an equal arc.
pub open spec fn mask_bit(mask: Seq<u8>, i: int) -> bool {
    i / 8 >= mask.len() || (mask[i / 8] >> ((7 - i % 8) as u8)) & 1u8 == 1u8
}

/// Whether the family of `subtree` under `mask` holds `oid`.
pub open spec fn in_family(subtree: Seq<u32>, mask: Seq<u8>, oid: Seq<u32>) -> bool {
    &&& subtree.len() <= oid.len()
    &&& forall|i: int|
        0 <= i < subtree.len() && #[trigger] mask_bit(mask, i) ==> subtree[i] == oid[i]
}

/// The group of a security name: that of the first entry that names it.
pub open spec fn group_of(groups: Seq<VacmGroup>, model: i32, name: Seq<u8>) -> Option<Seq<u8>>
    decreases groups.len(),
{
    if groups.len() == 0 {
        None
    } else if groups[0].security_model == model && groups[0].security_name@ == name {
        Some(groups[0].group@)
    } else {
        group_of(groups.drop_first(), model, name)
    }
}

/// Whether an access entry applies to a request of `group`.
pub open spec fn applies(a: VacmAccess, group: Seq<u8>, who: Requester) -> bool {
    &&& a.group@ == group
    &&& a.security_model == 0 || a.security_model == who.model
    &&& a.security_level <= who.level
    &&& match a.context_match {
        ContextMatch::Exact => a.context_prefix@ == who.context,
        ContextMatch::Prefix => a.context_prefix@.len() <= who.context.len() && who.context.take(
            a.context_prefix@.len() as int,
        ) == a.context_prefix@,
    }
}

/// The name of the view that an access entry gives for a kind of access.
pub open spec fn view_name(a: VacmAccess, view_type: AccessView) -> Option<Seq<u8>> {
    let v = match view_type {
        AccessView::Read => a.read_view,
        AccessView::Write => a.write_view,
        AccessView::Notify => a.notify_view,
    };
    match v {
        Some(n) => Some(n@),
        None => None,
    }
}

/// The view given to `group`: that of the first access entry that applies.
pub open spec fn view_of(
    access: Seq<VacmAccess>,
    group: Seq<u8>,
    who: Requester,
    view_type: AccessView,
) -> Option<Seq<u8>>
    decreases access.len(),
{
    if access.len() == 0 {
        None
    } else if applies(access[0], group, who) {
        view_name(access[0], view_type)
    } else {
        view_of(access.drop_first(), group, who, view_type)
    }
}

/// The family that decides about `oid` in the view `name` among the first `n`: the last of
/// those with the longest subtree.
pub open spec fn deciding(
    views: Seq<(Vec<u8>, VacmView)>,
    name: Seq<u8>,
    oid: Seq<u32>,
    n: nat,
) -> Option<int>
    decreases n,
{
    if n == 0 {
        None
    } else {
        let prev = deciding(views, name, oid, (n - 1) as nat);
        let v = views[n - 1];
        if v.0@ == name && in_family(v.1.subtree@, v.1.mask@, oid) && (prev is None
            || v.1.subtree@.len() >= views[prev->0].1.subtree@.len()) {
            Some(n - 1)
        } else {
            prev
        }
    }
}

/// Whether `oid` is in the view `name`.
pub open spec fn in_view(views: Seq<(Vec<u8>, VacmView)>, name: Seq<u8>, oid: Seq<u32>) -> bool {
    match deciding(views, name, oid, views.len()) {
        Some(i) => views[i].1.typ == ViewTreeFamilyType::Included,
        None => false,
    }
}

fn mask_says(mask: &[u8], i: usize) -> (r: bool)
    ensures
        r == mask_bit(mask@, i as int),
{
    i / 8 >= mask.len() || (mask[i / 8] >> ((7 - i % 8) as u8)) & 1u8 == 1u8
}

fn family_holds(v: &VacmView, oid: &Oid) -> (r: bool)
    ensures
        r == in_family(v.subtree@, v.mask@, oid@),
{
    let sub = v.subtree.as_slice();
    let arcs = oid.as_slice();
    if sub.len() > arcs.len() {
        return false;
    }
    let mut i: usize = 0;
    while i < sub.len()
        invariant
            i <= sub@.len() <= arcs@.len(),
            sub@ == v.subtree@,
            arcs@ == oid@,
            forall|k: int| 0 <= k < i && #[trigger] mask_bit(v.mask@, k) ==> sub@[k] == arcs@[k],
        decreases sub@.len() - i,
    {
        if mask_says(v.mask.as_slice(), i) && sub[i] != arcs[i] {
            assert(mask_bit(v.mask@, i as int));
            return false;
        }
        i += 1;
    }
    true
}

fn has_prefix(s: &[u8], p: &[u8]) -> (r: bool)
    ensures
        r == (p@.len() <= s@.len() && s@.take(p@.len() as int) == p@),
{
    if p.len() > s.len() {
        return false;
    }
    let mut i: usize = 0;
    while i < p.len()
        invariant
            i <= p@.len() <= s@.len(),
            forall|k: int| 0 <= k < i ==> p@[k] == s@[k],
        decreases p@.len() - i,
    {
        if p[i] != s[i] {
            assert(s@.take(p@.len() as int)[i as int] != p@[i as int]);
            return false;
        }
        i += 1;
    }
    assert(s@.take(p@.len() as int) =~= p@);
    true
}

impl Vacm {
    /// The registered contexts.
    pub closed spec fn context_list(self) -> Seq<Vec<u8>> {
        self.contexts@
    }

    /// The group entries.
    pub closed spec fn group_list(self) -> Seq<VacmGroup> {
        self.groups@
    }

    /// The access entries.
    pub closed spec fn access_list(self) -> Seq<VacmAccess> {
        self.access@
    }

    /// The view families, each with the name of its view.
    pub closed spec fn view_list(self) -> Seq<(Vec<u8>, VacmView)> {
        self.views@
    }

    /// Whether nothing is configured that could deny or grant.
    pub open spec fn is_blank(self) -> bool {
        self.group_list().len() == 0 && self.access_list().len() == 0 && self.view_list().len() == 0
    }

    /// Whether access is granted. A blank configuration grants everything.
    pub open spec fn grants(self, view_type: AccessView, who: Requester, oid: Seq<u32>) -> bool {
        if self.is_blank() {
            true
        } else {
            match group_of(self.group_list(), who.model, who.name) {
                Some(group) => match view_of(self.access_list(), group, who, view_type) {
                    Some(name) => in_view(self.view_list(), name, oid),
                    None => false,
                },
                None => false,
            }
        }
    }

    /// An empty configuration.
    pub fn new() -> (r: Vacm)
        ensures
            r.is_blank(),
            r.context_list() == Seq::<Vec<u8>>::empty(),
    {
        Vacm { contexts: Vec::new(), groups: Vec::new(), access: Vec::new(), views: Vec::new() }
    }

    /// Register a context.
    pub fn add_context(&mut self, context: Vec<u8>)
        ensures
            final(self).context_list() == old(self).context_list().push(context),
            final(self).group_list() == old(self).group_list(),
            final(self).access_list() == old(self).access_list(),
            final(self).view_list() == old(self).view_list(),
    {
        self.contexts.push(context);
    }

    /// Add a group entry.
    pub fn add_group(&mut self, group: VacmGroup)
        ensures
            final(self).context_list() == old(self).context_list(),
            final(self).group_list() == old(self).group_list().push(group),
            final(self).access_list() == old(self).access_list(),
            final(self).view_list() == old(self).view_list(),
    {
        self.groups.push(group);
    }

    /// Add an access entry.
    pub fn add_access(&mut self, access: VacmAccess)
        ensures
            final(self).context_list() == old(self).context_list(),
            final(self).group_list() == old(self).group_list(),
            final(self).access_list() == old(self).access_list().push(access),
            final(self).view_list() == old(self).view_list(),
    {
        self.access.push(access);
    }

    /// Add a family to the view `name`.
    pub fn add_view(&mut self, name: Vec<u8>, view: VacmView)
        ensures
            final(self).context_list() == old(self).context_list(),
            final(self).group_list() == old(self).group_list(),
            final(self).access_list() == old(self).access_list(),
            final(self).view_list() == old(self).view_list().push((name, view)),
    {
        self.views.push((name, view));
    }

    /// The registered contexts.
    pub fn contexts(&self) -> (r: &Vec<Vec<u8>>)
        ensures
            r@ == self.context_list(),
    {
        &self.contexts
    }

    /// The group entries.
    pub fn groups(&self) -> (r: &Vec<VacmGroup>)
        ensures
            r@ == self.group_list(),
    {
        &self.groups
    }

    /// The access entries.
    pub fn access(&self) -> (r: &Vec<VacmAccess>)
        ensures
            r@ == self.access_list(),
    {
        &self.access
    }

    /// The view families.
    pub fn views(&self) -> (r: &Vec<(Vec<u8>, VacmView)>)
        ensures
            r@ == self.view_list(),
    {
        &self.views
    }

    /// Whether a requester may access `oid`.
    pub fn is_view_accessible(
        &self,
        view_type: AccessView,
        model: i32,
        name: &[u8],
        level: i32,
        context: &[u8],
        oid: &Oid,
    ) -> (r: bool)
        ensures
            r == self.grants(
                view_type,
                (Requester { model, name: name@, level, context: context@ }),
                oid@,
            ),
    {
        if self.groups.len() == 0 && self.access.len() == 0 && self.views.len() == 0 {
            return true;
        }
        let g: usize = match self.find_group(model, name) {
            Some(i) => i,
            None => {
                return false;
            },
        };
        let a: usize = match self.find_access(
            self.groups[g].group.as_slice(),
            model,
            level,
            context,
            Ghost(name@),
            Ghost(view_type),
        ) {
            Some(i) => i,
            None => {
                return false;
            },
        };
        let view = match view_type {
            AccessView::Read => &self.access[a].read_view,
            AccessView::Write => &self.access[a].write_view,
            AccessView::Notify => &self.access[a].notify_view,
        };
        match view {
            Some(v) => self.view_holds(v.as_slice(), oid),
            None => false,
        }
    }

    fn find_group(&self, model: i32, name: &[u8]) -> (r: Option<usize>)
        ensures
            r matches Some(i) ==> i < self.group_list().len() && group_of(
                self.group_list(),
                model,
                name@,
            ) == Some(self.group_list()[i as int].group@),
            r is None ==> group_of(self.group_list(), model, name@) is None,
    {
        let mut i: usize = 0;
        let ghost all = self.groups@;
        assert(all.skip(0) =~= all);
        while i < self.groups.len()
            invariant
                i <= all.len(),
                all == self.groups@,
                group_of(all, model, name@) == group_of(all.skip(i as int), model, name@),
            decreases all.len() - i,
        {
            assert(all.skip(i as int)[0] == all[i as int]);
            assert(all.skip(i as int).drop_first() =~= all.skip(i + 1));
            if self.groups[i].security_model == model && bytes_eq(
                self.groups[i].security_name.as_slice(),
                name,
            ) {
                return Some(i);
            }
            i += 1;
        }
        None
    }

    fn find_access(
        &self,
        group: &[u8],
        model: i32,
        level: i32,
        context: &[u8],
        name: Ghost<Seq<u8>>,
        view_type: Ghost<AccessView>,
    ) -> (r: Option<usize>)
        ensures
            r matches Some(i) ==> i < self.access_list().len() && view_of(
                self.access_list(),
                group@,
                (Requester { model, name: name@, level, context: context@ }),
                view_type@,
            ) == view_name(self.access_list()[i as int], view_type@),
            r is None ==> view_of(
                self.access_list(),
                group@,
                (Requester { model, name: name@, level, context: context@ }),
                view_type@,
            ) is None,
    {
        let mut i: usize = 0;
        let ghost all = self.access@;
        let ghost who = Requester { model, name: name@, level, context: context@ };
        assert(all.skip(0) =~= all);
        while i < self.access.len()
            invariant
                i <= all.len(),
                all == self.access@,
                who == (Requester { model, name: name@, level, context: context@ }),
                view_of(all, group@, who, view_type@) == view_of(
                    all.skip(i as int),
                    group@,
                    who,
                    view_type@,
                ),
            decreases all.len() - i,
        {
            assert(all.skip(i as int)[0] == all[i as int]);
            assert(all.skip(i as int).drop_first() =~= all.skip(i + 1));
            let a = &self.access[i];
            let fits = match a.context_match {
                ContextMatch::Exact => bytes_eq(a.context_prefix.as_slice(), context),
                ContextMatch::Prefix => has_prefix(context, a.context_prefix.as_slice()),
            };
            if fits && bytes_eq(a.group.as_slice(), group) && (a.security_model == 0
                || a.security_model == model) && a.security_level <= level {
                return Some(i);
            }
            i += 1;
        }
        None
    }

    fn view_holds(&self, name: &[u8], oid: &Oid) -> (r: bool)
        ensures
            r == in_view(self.view_list(), name@, oid@),
    {
        let mut best: Option<usize> = None;
        let mut i: usize = 0;
        while i < self.views.len()
            invariant
                i <= self.views@.len(),
                best matches Some(b) ==> b < i && deciding(self.views@, name@, oid@, i as nat)
                    == Some(b as int),
                best is None ==> deciding(self.views@, name@, oid@, i as nat) is None,
            decreases self.views@.len() - i,
        {
            let v = &self.views[i];
            if bytes_eq(v.0.as_slice(), name) && family_holds(&v.1, oid) {
                let better = match best {
                    Some(b) => v.1.subtree.len() >= self.views[b].1.subtree.len(),
                    None => true,
                };
                if better {
                    best = Some(i);
                }
            }
            i += 1;
        }
        match best {
            Some(b) => self.views[b].1.typ == ViewTreeFamilyType::Included,
            None => false,
        }
    }
}

/// A blank configuration grants every access.
pub proof fn blank_grants_everything(
    vacm: Vacm,
    view_type: AccessView,
    who: Requester,
    oid: Seq<u32>,
)
    requires
        vacm.is_blank(),
    ensures
        vacm.grants(view_type, who, oid),
{
}

} // verus!
