//! What holds of the interpolation of a resource, text by text.
use vstd::prelude::*;

use crate::interpolate::{interpolated, InterpolatorView, Place};
use crate::interpolate_laws::run_succeeds_exactly_if_every_text_does;
use crate::interpolate_resource::{
    build_parts, deployment_parts, interpolated_resource, repo_parts, stack_parts,
};
use crate::resource::{BuildConfig, DeploymentConfig, RepoConfig, StackConfig};

verus! {

/// Whether `after` is what interpolation on its own makes of `before`, with
/// success.
pub open spec fn becomes(state: InterpolatorView, before: Seq<char>, after: Seq<char>) -> bool {
    interpolated(state, before).failure is None && after == interpolated(state, before).target
}

/// Whether each of `after` is what interpolation on its own makes of the text at
/// the same place in `before`, with success.
pub open spec fn all_become(
    state: InterpolatorView,
    before: Seq<String>,
    after: Seq<String>,
) -> bool {
    &&& before.len() == after.len()
    &&& forall|i: int|
        0 <= i < before.len() ==> becomes(state, (#[trigger] before[i])@, after[i]@)
}

/// Whether two lists hold the same texts.
pub open spec fn same_texts(before: Seq<String>, after: Seq<String>) -> bool {
    &&& before.len() == after.len()
    &&& forall|i: int| 0 <= i < before.len() ==> (#[trigger] before[i])@ == after[i]@
}

/// The texts of a stack are interpolated in this order, and no other text is.
pub proof fn texts_of_stack_in_order(config: StackConfig)
    ensures
        stack_parts(config).len() == 5 + config.extra_args@.len() + config.build_extra_args@.len(),
        stack_parts(config)[0] == (Place::Target, config.file_contents@),
        stack_parts(config)[1] == (Place::Target, config.environment@),
        stack_parts(config)[2] == (Place::Target, config.pre_deploy.command@),
        stack_parts(config)[3] == (Place::Target, config.post_deploy.command@),
        stack_parts(config)[4] == (Place::Target, config.compose_cmd_wrapper@),
        forall|i: int|
            0 <= i < config.extra_args@.len() ==> stack_parts(config)[5 + i] == (
                Place::ExtraArg,
                (#[trigger] config.extra_args@[i])@,
            ),
        forall|i: int|
            0 <= i < config.build_extra_args@.len() ==> stack_parts(config)[5 + config.extra_args@.len() + i] == (
                Place::ExtraArg,
                (#[trigger] config.build_extra_args@[i])@,
            ),
{
}

/// Where a stack is interpolated with success, each of its texts, on its own, is
/// what interpolation makes of it; where it asks to be skipped, none is changed
/// and nothing is recorded.
pub proof fn every_text_of_stack_is_interpolated(
    state: InterpolatorView,
    before: StackConfig,
    after: StackConfig,
)
    requires
        stack_parts(after) == interpolated_resource(
            state,
            before.skip_secret_interp,
            stack_parts(before),
        ).1,
        before.extra_args@.len() == after.extra_args@.len(),
        before.build_extra_args@.len() == after.build_extra_args@.len(),
    ensures
        ({
            let end = interpolated_resource(
                state,
                before.skip_secret_interp,
                stack_parts(before),
            ).0;
            &&& before.skip_secret_interp ==> end.error is None && end.state == state
            &&& !before.skip_secret_interp && end.error is None ==> {
                &&& becomes(state, before.file_contents@, after.file_contents@)
                &&& becomes(state, before.environment@, after.environment@)
                &&& becomes(state, before.pre_deploy.command@, after.pre_deploy.command@)
                &&& becomes(state, before.post_deploy.command@, after.post_deploy.command@)
                &&& becomes(state, before.compose_cmd_wrapper@, after.compose_cmd_wrapper@)
                &&& all_become(state, before.extra_args@, after.extra_args@)
                &&& all_become(state, before.build_extra_args@, after.build_extra_args@)
            }
            &&& before.skip_secret_interp ==> {
                &&& after.file_contents@ == before.file_contents@
                &&& after.environment@ == before.environment@
                &&& after.pre_deploy.command@ == before.pre_deploy.command@
                &&& after.post_deploy.command@ == before.post_deploy.command@
                &&& after.compose_cmd_wrapper@ == before.compose_cmd_wrapper@
                &&& same_texts(before.extra_args@, after.extra_args@)
                &&& same_texts(before.build_extra_args@, after.build_extra_args@)
            }
        }),
{
    texts_of_stack_in_order(before);
    texts_of_stack_in_order(after);
    let parts = stack_parts(before);
    let out = stack_parts(after);
    if !before.skip_secret_interp {
        run_succeeds_exactly_if_every_text_does(state, parts);
    }
    let end = interpolated_resource(state, before.skip_secret_interp, parts).0;
    if before.skip_secret_interp || end.error is None {
        assert(out[0].1 == if before.skip_secret_interp {
            parts[0].1
        } else {
            interpolated(state, parts[0].1).target
        });
        assert(out[1].1 == if before.skip_secret_interp {
            parts[1].1
        } else {
            interpolated(state, parts[1].1).target
        });
        assert(out[2].1 == if before.skip_secret_interp {
            parts[2].1
        } else {
            interpolated(state, parts[2].1).target
        });
        assert(out[3].1 == if before.skip_secret_interp {
            parts[3].1
        } else {
            interpolated(state, parts[3].1).target
        });
        assert(out[4].1 == if before.skip_secret_interp {
            parts[4].1
        } else {
            interpolated(state, parts[4].1).target
        });
        assert forall|i: int| 0 <= i < before.extra_args@.len() implies (
        #[trigger] after.extra_args@[i])@ == (if before.skip_secret_interp {
            before.extra_args@[i]@
        } else {
            interpolated(state, before.extra_args@[i]@).target
        }) && (!before.skip_secret_interp ==> interpolated(state, before.extra_args@[i]@).failure is None) by {
            let at = 5 + i;
            assert(parts[at] == (Place::ExtraArg, before.extra_args@[i]@));
            assert(out[at] == (Place::ExtraArg, after.extra_args@[i]@));
        }
        assert forall|i: int| 0 <= i < before.build_extra_args@.len() implies (
        #[trigger] after.build_extra_args@[i])@ == (if before.skip_secret_interp {
            before.build_extra_args@[i]@
        } else {
            interpolated(state, before.build_extra_args@[i]@).target
        }) && (!before.skip_secret_interp ==> interpolated(state, before.build_extra_args@[i]@).failure is None) by {
            let at = 5 + before.extra_args@.len() + i;
            assert(parts[at] == (Place::ExtraArg, before.build_extra_args@[i]@));
            assert(out[at] == (Place::ExtraArg, after.build_extra_args@[i]@));
        }
    }
}

/// The texts of a repo are interpolated in this order, and no other text is.
pub proof fn texts_of_repo_in_order(config: RepoConfig)
    ensures
        repo_parts(config).len() == 3,
        repo_parts(config)[0] == (Place::Target, config.environment@),
        repo_parts(config)[1] == (Place::Target, config.on_clone.command@),
        repo_parts(config)[2] == (Place::Target, config.on_pull.command@),
{
}

/// Where a repo is interpolated with success, each of its texts, on its own, is
/// what interpolation makes of it; where it asks to be skipped, none is changed
/// and nothing is recorded.
pub proof fn every_text_of_repo_is_interpolated(
    state: InterpolatorView,
    before: RepoConfig,
    after: RepoConfig,
)
    requires
        repo_parts(after) == interpolated_resource(
            state,
            before.skip_secret_interp,
            repo_parts(before),
        ).1,
    ensures
        ({
            let end = interpolated_resource(
                state,
                before.skip_secret_interp,
                repo_parts(before),
            ).0;
            &&& before.skip_secret_interp ==> end.error is None && end.state == state
            &&& !before.skip_secret_interp && end.error is None ==> {
                &&& becomes(state, before.environment@, after.environment@)
                &&& becomes(state, before.on_clone.command@, after.on_clone.command@)
                &&& becomes(state, before.on_pull.command@, after.on_pull.command@)
            }
            &&& before.skip_secret_interp ==> {
                &&& after.environment@ == before.environment@
                &&& after.on_clone.command@ == before.on_clone.command@
                &&& after.on_pull.command@ == before.on_pull.command@
            }
        }),
{
    texts_of_repo_in_order(before);
    texts_of_repo_in_order(after);
    let parts = repo_parts(before);
    let out = repo_parts(after);
    if !before.skip_secret_interp {
        run_succeeds_exactly_if_every_text_does(state, parts);
    }
    let end = interpolated_resource(state, before.skip_secret_interp, parts).0;
    if before.skip_secret_interp || end.error is None {
        assert(out[0].1 == if before.skip_secret_interp {
            parts[0].1
        } else {
            interpolated(state, parts[0].1).target
        });
        assert(out[1].1 == if before.skip_secret_interp {
            parts[1].1
        } else {
            interpolated(state, parts[1].1).target
        });
        assert(out[2].1 == if before.skip_secret_interp {
            parts[2].1
        } else {
            interpolated(state, parts[2].1).target
        });
    }
}

/// The texts of a build are interpolated in this order, and no other text is.
pub proof fn texts_of_build_in_order(config: BuildConfig)
    ensures
        build_parts(config).len() == 5 + config.extra_args@.len(),
        build_parts(config)[0] == (Place::Target, config.build_args@),
        build_parts(config)[1] == (Place::Target, config.secret_args@),
        build_parts(config)[2] == (Place::Target, config.labels@),
        build_parts(config)[3] == (Place::Target, config.pre_build.command@),
        build_parts(config)[4] == (Place::Target, config.dockerfile@),
        forall|i: int|
            0 <= i < config.extra_args@.len() ==> build_parts(config)[5 + i] == (
                Place::ExtraArg,
                (#[trigger] config.extra_args@[i])@,
            ),
{
}

/// Where a build is interpolated with success, each of its texts, on its own, is
/// what interpolation makes of it; where it asks to be skipped, none is changed
/// and nothing is recorded.
pub proof fn every_text_of_build_is_interpolated(
    state: InterpolatorView,
    before: BuildConfig,
    after: BuildConfig,
)
    requires
        build_parts(after) == interpolated_resource(
            state,
            before.skip_secret_interp,
            build_parts(before),
        ).1,
        before.extra_args@.len() == after.extra_args@.len(),
    ensures
        ({
            let end = interpolated_resource(
                state,
                before.skip_secret_interp,
                build_parts(before),
            ).0;
            &&& before.skip_secret_interp ==> end.error is None && end.state == state
            &&& !before.skip_secret_interp && end.error is None ==> {
                &&& becomes(state, before.build_args@, after.build_args@)
                &&& becomes(state, before.secret_args@, after.secret_args@)
                &&& becomes(state, before.labels@, after.labels@)
                &&& becomes(state, before.pre_build.command@, after.pre_build.command@)
                &&& becomes(state, before.dockerfile@, after.dockerfile@)
                &&& all_become(state, before.extra_args@, after.extra_args@)
            }
            &&& before.skip_secret_interp ==> {
                &&& after.build_args@ == before.build_args@
                &&& after.secret_args@ == before.secret_args@
                &&& after.labels@ == before.labels@
                &&& after.pre_build.command@ == before.pre_build.command@
                &&& after.dockerfile@ == before.dockerfile@
                &&& same_texts(before.extra_args@, after.extra_args@)
            }
        }),
{
    texts_of_build_in_order(before);
    texts_of_build_in_order(after);
    let parts = build_parts(before);
    let out = build_parts(after);
    if !before.skip_secret_interp {
        run_succeeds_exactly_if_every_text_does(state, parts);
    }
    let end = interpolated_resource(state, before.skip_secret_interp, parts).0;
    if before.skip_secret_interp || end.error is None {
        assert(out[0].1 == if before.skip_secret_interp {
            parts[0].1
        } else {
            interpolated(state, parts[0].1).target
        });
        assert(out[1].1 == if before.skip_secret_interp {
            parts[1].1
        } else {
            interpolated(state, parts[1].1).target
        });
        assert(out[2].1 == if before.skip_secret_interp {
            parts[2].1
        } else {
            interpolated(state, parts[2].1).target
        });
        assert(out[3].1 == if before.skip_secret_interp {
            parts[3].1
        } else {
            interpolated(state, parts[3].1).target
        });
        assert(out[4].1 == if before.skip_secret_interp {
            parts[4].1
        } else {
            interpolated(state, parts[4].1).target
        });
        assert forall|i: int| 0 <= i < before.extra_args@.len() implies (
        #[trigger] after.extra_args@[i])@ == (if before.skip_secret_interp {
            before.extra_args@[i]@
        } else {
            interpolated(state, before.extra_args@[i]@).target
        }) && (!before.skip_secret_interp ==> interpolated(state, before.extra_args@[i]@).failure is None) by {
            let at = 5 + i;
            assert(parts[at] == (Place::ExtraArg, before.extra_args@[i]@));
            assert(out[at] == (Place::ExtraArg, after.extra_args@[i]@));
        }
    }
}

/// The texts of a deployment are interpolated in this order, and no other text is.
pub proof fn texts_of_deployment_in_order(config: DeploymentConfig)
    ensures
        deployment_parts(config).len() == 5 + config.extra_args@.len(),
        deployment_parts(config)[0] == (Place::Target, config.environment@),
        deployment_parts(config)[1] == (Place::Target, config.ports@),
        deployment_parts(config)[2] == (Place::Target, config.volumes@),
        deployment_parts(config)[3] == (Place::Target, config.labels@),
        deployment_parts(config)[4] == (Place::Target, config.command@),
        forall|i: int|
            0 <= i < config.extra_args@.len() ==> deployment_parts(config)[5 + i] == (
                Place::ExtraArg,
                (#[trigger] config.extra_args@[i])@,
            ),
{
}

/// Where a deployment is interpolated with success, each of its texts, on its own, is
/// what interpolation makes of it; where it asks to be skipped, none is changed
/// and nothing is recorded.
pub proof fn every_text_of_deployment_is_interpolated(
    state: InterpolatorView,
    before: DeploymentConfig,
    after: DeploymentConfig,
)
    requires
        deployment_parts(after) == interpolated_resource(
            state,
            before.skip_secret_interp,
            deployment_parts(before),
        ).1,
        before.extra_args@.len() == after.extra_args@.len(),
    ensures
        ({
            let end = interpolated_resource(
                state,
                before.skip_secret_interp,
                deployment_parts(before),
            ).0;
            &&& before.skip_secret_interp ==> end.error is None && end.state == state
            &&& !before.skip_secret_interp && end.error is None ==> {
                &&& becomes(state, before.environment@, after.environment@)
                &&& becomes(state, before.ports@, after.ports@)
                &&& becomes(state, before.volumes@, after.volumes@)
                &&& becomes(state, before.labels@, after.labels@)
                &&& becomes(state, before.command@, after.command@)
                &&& all_become(state, before.extra_args@, after.extra_args@)
            }
            &&& before.skip_secret_interp ==> {
                &&& after.environment@ == before.environment@
                &&& after.ports@ == before.ports@
                &&& after.volumes@ == before.volumes@
                &&& after.labels@ == before.labels@
                &&& after.command@ == before.command@
                &&& same_texts(before.extra_args@, after.extra_args@)
            }
        }),
{
    texts_of_deployment_in_order(before);
    texts_of_deployment_in_order(after);
    let parts = deployment_parts(before);
    let out = deployment_parts(after);
    if !before.skip_secret_interp {
        run_succeeds_exactly_if_every_text_does(state, parts);
    }
    let end = interpolated_resource(state, before.skip_secret_interp, parts).0;
    if before.skip_secret_interp || end.error is None {
        assert(out[0].1 == if before.skip_secret_interp {
            parts[0].1
        } else {
            interpolated(state, parts[0].1).target
        });
        assert(out[1].1 == if before.skip_secret_interp {
            parts[1].1
        } else {
            interpolated(state, parts[1].1).target
        });
        assert(out[2].1 == if before.skip_secret_interp {
            parts[2].1
        } else {
            interpolated(state, parts[2].1).target
        });
        assert(out[3].1 == if before.skip_secret_interp {
            parts[3].1
        } else {
            interpolated(state, parts[3].1).target
        });
        assert(out[4].1 == if before.skip_secret_interp {
            parts[4].1
        } else {
            interpolated(state, parts[4].1).target
        });
        assert forall|i: int| 0 <= i < before.extra_args@.len() implies (
        #[trigger] after.extra_args@[i])@ == (if before.skip_secret_interp {
            before.extra_args@[i]@
        } else {
            interpolated(state, before.extra_args@[i]@).target
        }) && (!before.skip_secret_interp ==> interpolated(state, before.extra_args@[i]@).failure is None) by {
            let at = 5 + i;
            assert(parts[at] == (Place::ExtraArg, before.extra_args@[i]@));
            assert(out[at] == (Place::ExtraArg, after.extra_args@[i]@));
        }
    }
}

} // verus!
