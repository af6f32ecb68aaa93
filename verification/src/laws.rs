//! The library's global guarantees, stated and proved once over the
//! contracts of the admission operations: quota safety, IP uniqueness,
//! stage monotonicity, and the image/runtime compatibility gate.

use vstd::prelude::*;

use crate::admission::{
    create_outcome, create_static_error, delete_outcome, start_outcome, stop_outcome,
    update_outcome, CreateReqView, UpdateReqView,
};
use crate::catalog::{spec_image_of, spec_runtime_of, valid_instance_name};
use crate::errors::ErrorView;
use crate::model::{
    external_ips_unique, inst_idx, lemma_inst_idx, lemma_user_idx, state_wf, sum_cpu, sum_disk,
    sum_memory, user_idx, InstanceStage, StateView,
};

verus! {

/// Quota safety: in a well-formed state - and every admission operation
/// both requires and re-establishes well-formedness - no user's total cpu,
/// memory, disk or instance count exceeds the corresponding quota.
pub proof fn lemma_quota_safety(s: StateView)
    requires
        state_wf(s),
    ensures
        forall|u: int|
            0 <= u < s.users.len() ==> {
                let usr = #[trigger] s.users[u];
                &&& sum_cpu(usr.instances) <= usr.cpu_quota
                &&& sum_memory(usr.instances) <= usr.memory_quota
                &&& sum_disk(usr.instances) <= usr.disk_quota
                &&& usr.instances.len() <= usr.instance_quota
            },
{
}

/// IP uniqueness: in a well-formed state - preserved by every admission
/// operation and by the scheduler - no two instances hold the same
/// external IP.
pub proof fn lemma_ip_uniqueness(s: StateView)
    requires
        state_wf(s),
    ensures
        external_ips_unique(s.users),
{
}

/// Once an instance's desired stage is Deleted, the record (including its
/// stage) survives unchanged at its position.
pub open spec fn preserves_deleted(pre: StateView, post: StateView) -> bool {
    forall|u: int, i: int|
        {
            &&& 0 <= u < pre.users.len()
            &&& 0 <= i < pre.users[u].instances.len()
            &&& (#[trigger] pre.users[u].instances[i]).stage == InstanceStage::Deleted
        } ==> {
            &&& u < post.users.len()
            &&& i < post.users[u].instances.len()
            &&& post.users[u].instances[i] == pre.users[u].instances[i]
        }
}

/// Stage monotonicity of create: an accepted create appends a record and
/// touches no deleted one.
pub proof fn lemma_create_stage_monotonic(
    pre: StateView,
    username: Seq<char>,
    req: CreateReqView,
    password: Seq<char>,
    post: StateView,
    r: Result<bool, ErrorView>,
)
    requires
        create_outcome(pre, username, req, password, post, r),
    ensures
        preserves_deleted(pre, post),
{
    let uidx = user_idx(pre.users, username);
    assert forall|u: int, i: int|
        {
            &&& 0 <= u < pre.users.len()
            &&& 0 <= i < pre.users[u].instances.len()
            &&& (#[trigger] pre.users[u].instances[i]).stage == InstanceStage::Deleted
        } implies {
        &&& u < post.users.len()
        &&& i < post.users[u].instances.len()
        &&& post.users[u].instances[i] == pre.users[u].instances[i]
    } by {
        lemma_user_idx(pre.users, username);
        if post != pre {
            assert(post.users == pre.users.update(
                uidx,
                crate::admission::user_after_create(pre.users[uidx], req, password),
            ));
            if u == uidx {
                assert(post.users[u].instances[i] == pre.users[u].instances[i]);
            } else {
                assert(post.users[u] == pre.users[u]);
            }
        }
    }
}

/// Stage monotonicity of delete: marking an instance deleted changes only
/// an instance that was not yet deleted.
pub proof fn lemma_delete_stage_monotonic(
    pre: StateView,
    username: Seq<char>,
    name: Seq<char>,
    post: StateView,
    changed: bool,
)
    requires
        delete_outcome(pre, username, name, post, changed),
    ensures
        preserves_deleted(pre, post),
{
    let uidx = user_idx(pre.users, username);
    assert forall|u: int, i: int|
        {
            &&& 0 <= u < pre.users.len()
            &&& 0 <= i < pre.users[u].instances.len()
            &&& (#[trigger] pre.users[u].instances[i]).stage == InstanceStage::Deleted
        } implies {
        &&& u < post.users.len()
        &&& i < post.users[u].instances.len()
        &&& post.users[u].instances[i] == pre.users[u].instances[i]
    } by {
        if post != pre {
            lemma_user_idx(pre.users, username);
            let iidx = inst_idx(pre.users[uidx].instances, name);
            lemma_inst_idx(pre.users[uidx].instances, name);
            assert(pre.users[uidx].instances[iidx].stage != InstanceStage::Deleted);
            if u == uidx {
                if i != iidx {
                    assert(post.users[u].instances[i] == pre.users[u].instances[i]);
                }
            } else {
                assert(post.users[u] == pre.users[u]);
            }
        }
    }
}

/// Stage monotonicity of start: a deleted instance is rejected, so no
/// deleted record ever changes stage again.
pub proof fn lemma_start_stage_monotonic(
    pre: StateView,
    username: Seq<char>,
    name: Seq<char>,
    post: StateView,
    r: Result<bool, ErrorView>,
)
    requires
        start_outcome(pre, username, name, post, r),
    ensures
        preserves_deleted(pre, post),
{
    let uidx = user_idx(pre.users, username);
    assert forall|u: int, i: int|
        {
            &&& 0 <= u < pre.users.len()
            &&& 0 <= i < pre.users[u].instances.len()
            &&& (#[trigger] pre.users[u].instances[i]).stage == InstanceStage::Deleted
        } implies {
        &&& u < post.users.len()
        &&& i < post.users[u].instances.len()
        &&& post.users[u].instances[i] == pre.users[u].instances[i]
    } by {
        if post != pre {
            lemma_user_idx(pre.users, username);
            let iidx = inst_idx(pre.users[uidx].instances, name);
            lemma_inst_idx(pre.users[uidx].instances, name);
            assert(pre.users[uidx].instances[iidx].stage != InstanceStage::Deleted);
            if u == uidx {
                if i != iidx {
                    assert(post.users[u].instances[i] == pre.users[u].instances[i]);
                }
            } else {
                assert(post.users[u] == pre.users[u]);
            }
        }
    }
}

/// Stage monotonicity of stop.
pub proof fn lemma_stop_stage_monotonic(
    pre: StateView,
    username: Seq<char>,
    name: Seq<char>,
    post: StateView,
    r: Result<bool, ErrorView>,
)
    requires
        stop_outcome(pre, username, name, post, r),
    ensures
        preserves_deleted(pre, post),
{
    let uidx = user_idx(pre.users, username);
    assert forall|u: int, i: int|
        {
            &&& 0 <= u < pre.users.len()
            &&& 0 <= i < pre.users[u].instances.len()
            &&& (#[trigger] pre.users[u].instances[i]).stage == InstanceStage::Deleted
        } implies {
        &&& u < post.users.len()
        &&& i < post.users[u].instances.len()
        &&& post.users[u].instances[i] == pre.users[u].instances[i]
    } by {
        if post != pre {
            lemma_user_idx(pre.users, username);
            let iidx = inst_idx(pre.users[uidx].instances, name);
            lemma_inst_idx(pre.users[uidx].instances, name);
            assert(pre.users[uidx].instances[iidx].stage != InstanceStage::Deleted);
            if u == uidx {
                if i != iidx {
                    assert(post.users[u].instances[i] == pre.users[u].instances[i]);
                }
            } else {
                assert(post.users[u] == pre.users[u]);
            }
        }
    }
}

/// Stage monotonicity of update.
pub proof fn lemma_update_stage_monotonic(
    pre: StateView,
    username: Seq<char>,
    name: Seq<char>,
    req: UpdateReqView,
    post: StateView,
    r: Result<bool, ErrorView>,
)
    requires
        update_outcome(pre, username, name, req, post, r),
    ensures
        preserves_deleted(pre, post),
{
    let uidx = user_idx(pre.users, username);
    assert forall|u: int, i: int|
        {
            &&& 0 <= u < pre.users.len()
            &&& 0 <= i < pre.users[u].instances.len()
            &&& (#[trigger] pre.users[u].instances[i]).stage == InstanceStage::Deleted
        } implies {
        &&& u < post.users.len()
        &&& i < post.users[u].instances.len()
        &&& post.users[u].instances[i] == pre.users[u].instances[i]
    } by {
        if post != pre {
            lemma_user_idx(pre.users, username);
            let iidx = inst_idx(pre.users[uidx].instances, name);
            lemma_inst_idx(pre.users[uidx].instances, name);
            assert(pre.users[uidx].instances[iidx].stage != InstanceStage::Deleted);
            if u == uidx {
                if i != iidx {
                    assert(post.users[u].instances[i] == pre.users[u].instances[i]);
                }
            } else {
                assert(post.users[u] == pre.users[u]);
            }
        }
    }
}

/// The image/runtime gate: for a create request that passes the syntactic
/// checks before the catalog check (a valid name, nonzero sizes, an image
/// and a runtime that parse), admission lets the pair through exactly when
/// the runtime supports the image: it reports the image unavailable if and
/// only if the image is not among the runtime's supported images.
pub proof fn lemma_image_runtime_gate(req: CreateReqView)
    requires
        valid_instance_name(req.name),
        req.cpu >= 1,
        req.memory >= 1,
        req.disk_size >= 1,
        spec_image_of(req.image) is Some,
        spec_runtime_of(req.runtime) is Some,
    ensures
        (create_static_error(req) matches Some(e) && e is ImageUnavailable) <==> !spec_runtime_of(
            req.runtime,
        )->Some_0.spec_supports_image(spec_image_of(req.image)->Some_0),
{
    assert(req.image.len() > 0) by {
        if req.image.len() == 0 {
            reveal_strlit("tispace/centos7:");
            reveal_strlit("tispace/centos8:");
            reveal_strlit("tispace/centos9-stream:");
            reveal_strlit("tispace/ubuntu2004:");
            reveal_strlit("tispace/centos7");
            reveal_strlit("centos7");
            reveal_strlit("centos:7");
            reveal_strlit("tispace/centos8");
            reveal_strlit("centos8");
            reveal_strlit("centos:8");
            reveal_strlit("tispace/centos9-stream");
            reveal_strlit("centos9-stream");
            reveal_strlit("centos:9-stream");
            reveal_strlit("tispace/ubuntu2004");
            reveal_strlit("ubuntu2004");
            reveal_strlit("ubuntu:20.04");
            reveal_strlit("ubuntu2204");
            reveal_strlit("ubuntu:22.04");
            assert(spec_image_of(req.image) is None);
        }
    }
    assert(req.runtime.len() > 0) by {
        if req.runtime.len() == 0 {
            reveal_strlit("kata");
            reveal_strlit("runc");
            reveal_strlit("lxc");
            reveal_strlit("kvm");
            assert(spec_runtime_of(req.runtime) is None);
        }
    }
}

} // verus!
