//! The resources found in a Terraform project, and looking them up by the
//! target the user chose.
use vstd::prelude::*;
use crate::types::{resources_view, Resource, ResourceView, Target, TargetView};

verus! {

/// Whether a resource is one that `target` designates: a resource of that
/// file, the module of that name, or the resource of that type and name.
pub open spec fn matches_target(r: ResourceView, t: TargetView) -> bool {
    match t {
        TargetView::File(p) => r.file_path == p,
        TargetView::Module(n) => r.is_module && r.name == n,
        TargetView::Resource(ty, n) => !r.is_module && r.resource_type == ty && r.name == n,
    }
}

/// The resources of `rs` that `t` designates, in order.
pub open spec fn select_matching(rs: Seq<ResourceView>, t: TargetView) -> Seq<ResourceView>
    decreases rs.len(),
{
    if rs.len() == 0 {
        seq![]
    } else {
        let d = select_matching(rs.drop_last(), t);
        if matches_target(rs.last(), t) {
            d.push(rs.last())
        } else {
            d
        }
    }
}

/// What a target designates, field by field: every resource looked up for
/// a target is one of the project's resources and lies in the chosen file,
/// is the module of the chosen name, or is the non-module resource of the
/// chosen type and name; and every resource of the project that does so is
/// looked up.
pub proof fn lemma_lookup_by_target(rs: Seq<ResourceView>, t: TargetView)
    ensures
        forall|r: ResourceView| #[trigger] select_matching(rs, t).contains(r) ==> rs.contains(r),
        forall|r: ResourceView|
            #[trigger] select_matching(rs, t).contains(r) ==> match t {
                TargetView::File(p) => r.file_path == p,
                TargetView::Module(n) => r.is_module && r.name == n,
                TargetView::Resource(ty, n) => !r.is_module && r.resource_type == ty && r.name
                    == n,
            },
        forall|r: ResourceView|
            #[trigger] rs.contains(r) && match t {
                TargetView::File(p) => r.file_path == p,
                TargetView::Module(n) => r.is_module && r.name == n,
                TargetView::Resource(ty, n) => !r.is_module && r.resource_type == ty && r.name
                    == n,
            } ==> select_matching(rs, t).contains(r),
    decreases rs.len(),
{
    if rs.len() > 0 {
        let p = rs.drop_last();
        lemma_lookup_by_target(p, t);
        let d = select_matching(p, t);
        let x = rs.last();
        assert(rs[rs.len() - 1] == x);
        assert forall|r: ResourceView| #[trigger] select_matching(rs, t).contains(r) implies rs.contains(r)
            && matches_target(r, t) by {
            if d.contains(r) {
                let k = choose|k: int| 0 <= k < p.len() && p[k] == r;
                assert(rs[k] == r);
            } else {
                let k = choose|k: int|
                    0 <= k < select_matching(rs, t).len() && select_matching(rs, t)[k] == r;
                if k < d.len() {
                    assert(d.push(x)[k] == d[k]);
                }
            }
        }
        assert forall|r: ResourceView| #[trigger] rs.contains(r) && matches_target(r, t) implies select_matching(
            rs,
            t,
        ).contains(r) by {
            let k = choose|k: int| 0 <= k < rs.len() && rs[k] == r;
            if k < rs.len() - 1 {
                assert(p[k] == r);
                assert(p.contains(r));
                assert(d.contains(r));
                let m = choose|m: int| 0 <= m < d.len() && d[m] == r;
                if matches_target(x, t) {
                    assert(d.push(x)[m] == r);
                }
            } else {
                assert(d.push(x)[d.len() as int] == x);
            }
        }
    }
}

/// The resources of a Terraform project, in the order they were found.
pub struct TerraformProject {
    pub resources: Vec<Resource>,
}

impl TerraformProject {
    /// A project made of the given resources.
    pub fn new(resources: Vec<Resource>) -> (p: Self)
        ensures
            p.resources@ == resources@,
    {
        TerraformProject { resources }
    }

    /// The resources that `target` designates, in order.
    pub fn get_resources_by_target(&self, target: &Target) -> (res: Vec<Resource>)
        ensures
            resources_view(res@) == select_matching(resources_view(self.resources@), target@),
            forall|i: int|
                #![trigger res@[i]]
                0 <= i < res@.len() ==> match target@ {
                    TargetView::File(p) => res@[i]@.file_path == p,
                    TargetView::Module(n) => res@[i]@.is_module && res@[i]@.name == n,
                    TargetView::Resource(ty, n) => !res@[i]@.is_module && res@[i]@.resource_type
                        == ty && res@[i]@.name == n,
                },
    {
        let ghost rs = resources_view(self.resources@);
        let mut res: Vec<Resource> = Vec::new();
        let n = self.resources.len();
        assert(rs.take(0) =~= Seq::<ResourceView>::empty());
        assert(resources_view(res@) =~= Seq::<ResourceView>::empty());
        for i in 0..n
            invariant
                n == self.resources@.len(),
                rs == resources_view(self.resources@),
                resources_view(res@) == select_matching(rs.take(i as int), target@),
        {
            let r = &self.resources[i];
            assert(rs.take(i + 1).drop_last() =~= rs.take(i as int));
            assert(rs[i as int] == r@);
            let hit = match target {
                Target::File(p) => r.file_path == *p,
                Target::Module(name) => r.is_module && r.name == *name,
                Target::Resource(ty, name) => !r.is_module && r.resource_type == *ty && r.name
                    == *name,
            };
            if hit {
                let ghost before = resources_view(res@);
                res.push(r.duplicate());
                assert(resources_view(res@) =~= before.push(rs[i as int]));
            }
        }
        assert(rs.take(n as int) =~= rs);
        proof {
            lemma_lookup_by_target(rs, target@);
            assert forall|i: int| #![trigger res@[i]] 0 <= i < res@.len() implies matches_target(
                res@[i]@,
                target@,
            ) by {
                assert(resources_view(res@)[i] == res@[i]@);
                assert(select_matching(rs, target@).contains(res@[i]@));
            }
        }
        res
    }
}

} // verus!
