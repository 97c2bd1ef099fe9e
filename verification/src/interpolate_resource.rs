//! Interpolation of all texts of a resource.
use vstd::prelude::*;

use crate::interpolate::{
    error_of, interpolated_parts, lemma_steps_append, lemma_steps_push, placed, step, steps,
    InterpolateError, Interpolator, InterpolatorView, Part, Place, Progress,
};
use crate::resource::{
    Build, BuildConfig, Deployment, DeploymentConfig, Repo, RepoConfig, Stack, StackConfig,
};
use crate::resource_laws::{
    all_become, becomes, every_text_of_build_is_interpolated,
    every_text_of_deployment_is_interpolated, every_text_of_repo_is_interpolated,
    every_text_of_stack_is_interpolated, same_texts,
};
use crate::text::views;

verus! {

/// The texts of a stack, in the order in which they are interpolated.
pub open spec fn stack_parts(config: StackConfig) -> Seq<Part> {
    placed(
        Place::Target,
        seq![
            config.file_contents@,
            config.environment@,
            config.pre_deploy.command@,
            config.post_deploy.command@,
            config.compose_cmd_wrapper@,
        ],
    ) + placed(Place::ExtraArg, views(config.extra_args@)) + placed(
        Place::ExtraArg,
        views(config.build_extra_args@),
    )
}

/// The texts of a repo, in the order in which they are interpolated.
pub open spec fn repo_parts(config: RepoConfig) -> Seq<Part> {
    placed(
        Place::Target,
        seq![config.environment@, config.on_clone.command@, config.on_pull.command@],
    )
}

/// The texts of a build, in the order in which they are interpolated.
pub open spec fn build_parts(config: BuildConfig) -> Seq<Part> {
    placed(
        Place::Target,
        seq![
            config.build_args@,
            config.secret_args@,
            config.labels@,
            config.pre_build.command@,
            config.dockerfile@,
        ],
    ) + placed(Place::ExtraArg, views(config.extra_args@))
}

/// The texts of a deployment, in the order in which they are interpolated.
pub open spec fn deployment_parts(config: DeploymentConfig) -> Seq<Part> {
    placed(
        Place::Target,
        seq![
            config.environment@,
            config.ports@,
            config.volumes@,
            config.labels@,
            config.command@,
        ],
    ) + placed(Place::ExtraArg, views(config.extra_args@))
}

/// Interpolation of a resource with the texts `parts`, which leaves it as it is
/// where it asks for that.
pub open spec fn interpolated_resource(
    state: InterpolatorView,
    skip: bool,
    parts: Seq<Part>,
) -> (Progress, Seq<Part>) {
    if skip {
        (Progress { state, error: None }, parts)
    } else {
        interpolated_parts(state, parts)
    }
}

proof fn lemma_five_steps(progress: Progress, parts: Seq<Part>)
    requires
        parts.len() == 5,
    ensures
        steps(progress, parts) == ({
            let (p0, t0) = step(progress, parts[0]);
            let (p1, t1) = step(p0, parts[1]);
            let (p2, t2) = step(p1, parts[2]);
            let (p3, t3) = step(p2, parts[3]);
            let (p4, t4) = step(p3, parts[4]);
            (p4, seq![t0, t1, t2, t3, t4])
        }),
{
    let nothing = parts.take(0);
    assert(steps(progress, nothing) == (progress, nothing));
    lemma_steps_push(progress, nothing, parts[0]);
    lemma_steps_push(progress, nothing.push(parts[0]), parts[1]);
    lemma_steps_push(progress, nothing.push(parts[0]).push(parts[1]), parts[2]);
    lemma_steps_push(progress, nothing.push(parts[0]).push(parts[1]).push(parts[2]), parts[3]);
    lemma_steps_push(
        progress,
        nothing.push(parts[0]).push(parts[1]).push(parts[2]).push(parts[3]),
        parts[4],
    );
    assert(parts =~= nothing.push(parts[0]).push(parts[1]).push(parts[2]).push(parts[3]).push(
        parts[4],
    ));
    let (p0, t0) = step(progress, parts[0]);
    let (p1, t1) = step(p0, parts[1]);
    let (p2, t2) = step(p1, parts[2]);
    let (p3, t3) = step(p2, parts[3]);
    let (p4, t4) = step(p3, parts[4]);
    assert(steps(progress, parts).1 =~= seq![t0, t1, t2, t3, t4]);
}

impl<'a> Interpolator<'a> {
    fn run_stack(&mut self, stack: &mut Stack) -> (r: Result<(), InterpolateError>)
        ensures
            ({
                let (end, parts) = interpolated_resource(
                    old(self)@,
                    old(stack).config.skip_secret_interp,
                    stack_parts(old(stack).config),
                );
                &&& stack_parts(final(stack).config) == parts
                &&& end == (Progress { state: final(self)@, error: error_of(r) })
            }),
            final(stack).config.skip_secret_interp == old(stack).config.skip_secret_interp,
            final(stack).config.extra_args@.len() == old(stack).config.extra_args@.len(),
            final(stack).config.build_extra_args@.len()
                == old(stack).config.build_extra_args@.len(),
    {
        if stack.config.skip_secret_interp {
            return Ok(());
        }
        let ghost start = Progress { state: self@, error: None };
        let ghost texts = stack_parts(stack.config).take(5);
        let done: Result<(), InterpolateError> = Ok(());
        let done = self.advance(done, Place::Target, &mut stack.config.file_contents);
        let done = self.advance(done, Place::Target, &mut stack.config.environment);
        let done = self.advance(done, Place::Target, &mut stack.config.pre_deploy.command);
        let done = self.advance(done, Place::Target, &mut stack.config.post_deploy.command);
        let done = self.advance(done, Place::Target, &mut stack.config.compose_cmd_wrapper);
        proof {
            lemma_five_steps(start, texts);
            assert(steps(start, texts).1 =~= stack_parts(stack.config).take(5));
        }
        let ghost extra_args = placed(Place::ExtraArg, views(stack.config.extra_args@));
        let done = self.advance_all(done, Place::ExtraArg, &mut stack.config.extra_args);
        proof {
            lemma_steps_append(start, texts, extra_args);
        }
        let ghost build_extra_args = placed(Place::ExtraArg, views(stack.config.build_extra_args@));
        let done = self.advance_all(done, Place::ExtraArg, &mut stack.config.build_extra_args);
        proof {
            lemma_steps_append(start, texts + extra_args, build_extra_args);
            assert(stack_parts(old(stack).config) =~= texts + extra_args + build_extra_args);
            assert(stack_parts(stack.config) =~= steps(
                start,
                texts + extra_args + build_extra_args,
            ).1);
        }
        done
    }

    /// Interpolates every text of a stack, unless it asks to be skipped.
    pub fn interpolate_stack(&mut self, stack: &mut Stack) -> (r: Result<
        &mut Self,
        InterpolateError,
    >)
        ensures
            ({
                let (end, parts) = interpolated_resource(
                    old(self)@,
                    old(stack).config.skip_secret_interp,
                    stack_parts(old(stack).config),
                );
                &&& stack_parts(final(stack).config) == parts
                &&& match r {
                    Ok(me) => end.error is None && (*me)@ == end.state && *final(self)
                        == *final(me),
                    Err(error) => end.error == Some(error@) && final(self)@ == end.state,
                }
            }),
            final(stack).config.skip_secret_interp == old(stack).config.skip_secret_interp,
            final(stack).config.extra_args@.len() == old(stack).config.extra_args@.len(),
            final(stack).config.build_extra_args@.len()
                == old(stack).config.build_extra_args@.len(),
            old(stack).config.skip_secret_interp ==> {
                &&& r matches Ok(me) && (*me)@ == old(self)@
                &&& final(stack).config.file_contents@ == old(stack).config.file_contents@
                &&& final(stack).config.environment@ == old(stack).config.environment@
                &&& final(stack).config.pre_deploy.command@ == old(stack).config.pre_deploy.command@
                &&& final(stack).config.post_deploy.command@ == old(stack).config.post_deploy.command@
                &&& final(stack).config.compose_cmd_wrapper@ == old(stack).config.compose_cmd_wrapper@
                &&& same_texts(old(stack).config.extra_args@, final(stack).config.extra_args@)
                &&& same_texts(old(stack).config.build_extra_args@, final(stack).config.build_extra_args@)
            },
            !old(stack).config.skip_secret_interp && r is Ok ==> {
                &&& becomes(
                    old(self)@,
                    old(stack).config.file_contents@,
                    final(stack).config.file_contents@,
                )
                &&& becomes(
                    old(self)@,
                    old(stack).config.environment@,
                    final(stack).config.environment@,
                )
                &&& becomes(
                    old(self)@,
                    old(stack).config.pre_deploy.command@,
                    final(stack).config.pre_deploy.command@,
                )
                &&& becomes(
                    old(self)@,
                    old(stack).config.post_deploy.command@,
                    final(stack).config.post_deploy.command@,
                )
                &&& becomes(
                    old(self)@,
                    old(stack).config.compose_cmd_wrapper@,
                    final(stack).config.compose_cmd_wrapper@,
                )
                &&& all_become(
                    old(self)@,
                    old(stack).config.extra_args@,
                    final(stack).config.extra_args@,
                )
                &&& all_become(
                    old(self)@,
                    old(stack).config.build_extra_args@,
                    final(stack).config.build_extra_args@,
                )
            },
    {
        let done = self.run_stack(stack);
        proof {
            every_text_of_stack_is_interpolated(old(self)@, old(stack).config, stack.config);
        }
        match done {
            Ok(_) => Ok(self),
            Err(error) => Err(error),
        }
    }

    fn run_repo(&mut self, repo: &mut Repo) -> (r: Result<(), InterpolateError>)
        ensures
            ({
                let (end, parts) = interpolated_resource(
                    old(self)@,
                    old(repo).config.skip_secret_interp,
                    repo_parts(old(repo).config),
                );
                &&& repo_parts(final(repo).config) == parts
                &&& end == (Progress { state: final(self)@, error: error_of(r) })
            }),
            final(repo).config.skip_secret_interp == old(repo).config.skip_secret_interp,
    {
        if repo.config.skip_secret_interp {
            return Ok(());
        }
        let ghost start = Progress { state: self@, error: None };
        let ghost texts = repo_parts(repo.config).take(3);
        let done: Result<(), InterpolateError> = Ok(());
        let done = self.advance(done, Place::Target, &mut repo.config.environment);
        let done = self.advance(done, Place::Target, &mut repo.config.on_clone.command);
        let done = self.advance(done, Place::Target, &mut repo.config.on_pull.command);
        proof {
            reveal_with_fuel(steps, 4);
            assert(repo_parts(old(repo).config) =~= texts);
            assert(repo_parts(repo.config) =~= steps(start, texts).1);
        }
        done
    }

    /// Interpolates every text of a repo, unless it asks to be skipped.
    pub fn interpolate_repo(&mut self, repo: &mut Repo) -> (r: Result<
        &mut Self,
        InterpolateError,
    >)
        ensures
            ({
                let (end, parts) = interpolated_resource(
                    old(self)@,
                    old(repo).config.skip_secret_interp,
                    repo_parts(old(repo).config),
                );
                &&& repo_parts(final(repo).config) == parts
                &&& match r {
                    Ok(me) => end.error is None && (*me)@ == end.state && *final(self)
                        == *final(me),
                    Err(error) => end.error == Some(error@) && final(self)@ == end.state,
                }
            }),
            final(repo).config.skip_secret_interp == old(repo).config.skip_secret_interp,
            old(repo).config.skip_secret_interp ==> {
                &&& r matches Ok(me) && (*me)@ == old(self)@
                &&& final(repo).config.environment@ == old(repo).config.environment@
                &&& final(repo).config.on_clone.command@ == old(repo).config.on_clone.command@
                &&& final(repo).config.on_pull.command@ == old(repo).config.on_pull.command@
            },
            !old(repo).config.skip_secret_interp && r is Ok ==> {
                &&& becomes(
                    old(self)@,
                    old(repo).config.environment@,
                    final(repo).config.environment@,
                )
                &&& becomes(
                    old(self)@,
                    old(repo).config.on_clone.command@,
                    final(repo).config.on_clone.command@,
                )
                &&& becomes(
                    old(self)@,
                    old(repo).config.on_pull.command@,
                    final(repo).config.on_pull.command@,
                )
            },
    {
        let done = self.run_repo(repo);
        proof {
            every_text_of_repo_is_interpolated(old(self)@, old(repo).config, repo.config);
        }
        match done {
            Ok(_) => Ok(self),
            Err(error) => Err(error),
        }
    }

    fn run_build(&mut self, build: &mut Build) -> (r: Result<(), InterpolateError>)
        ensures
            ({
                let (end, parts) = interpolated_resource(
                    old(self)@,
                    old(build).config.skip_secret_interp,
                    build_parts(old(build).config),
                );
                &&& build_parts(final(build).config) == parts
                &&& end == (Progress { state: final(self)@, error: error_of(r) })
            }),
            final(build).config.skip_secret_interp == old(build).config.skip_secret_interp,
            final(build).config.extra_args@.len() == old(build).config.extra_args@.len(),
    {
        if build.config.skip_secret_interp {
            return Ok(());
        }
        let ghost start = Progress { state: self@, error: None };
        let ghost texts = build_parts(build.config).take(5);
        let done: Result<(), InterpolateError> = Ok(());
        let done = self.advance(done, Place::Target, &mut build.config.build_args);
        let done = self.advance(done, Place::Target, &mut build.config.secret_args);
        let done = self.advance(done, Place::Target, &mut build.config.labels);
        let done = self.advance(done, Place::Target, &mut build.config.pre_build.command);
        let done = self.advance(done, Place::Target, &mut build.config.dockerfile);
        proof {
            lemma_five_steps(start, texts);
            assert(steps(start, texts).1 =~= build_parts(build.config).take(5));
        }
        let ghost extra_args = placed(Place::ExtraArg, views(build.config.extra_args@));
        let done = self.advance_all(done, Place::ExtraArg, &mut build.config.extra_args);
        proof {
            lemma_steps_append(start, texts, extra_args);
            assert(build_parts(old(build).config) =~= texts + extra_args);
            assert(build_parts(build.config) =~= steps(start, texts + extra_args).1);
        }
        done
    }

    /// Interpolates every text of a build, unless it asks to be skipped.
    pub fn interpolate_build(&mut self, build: &mut Build) -> (r: Result<
        &mut Self,
        InterpolateError,
    >)
        ensures
            ({
                let (end, parts) = interpolated_resource(
                    old(self)@,
                    old(build).config.skip_secret_interp,
                    build_parts(old(build).config),
                );
                &&& build_parts(final(build).config) == parts
                &&& match r {
                    Ok(me) => end.error is None && (*me)@ == end.state && *final(self)
                        == *final(me),
                    Err(error) => end.error == Some(error@) && final(self)@ == end.state,
                }
            }),
            final(build).config.skip_secret_interp == old(build).config.skip_secret_interp,
            final(build).config.extra_args@.len() == old(build).config.extra_args@.len(),
            old(build).config.skip_secret_interp ==> {
                &&& r matches Ok(me) && (*me)@ == old(self)@
                &&& final(build).config.build_args@ == old(build).config.build_args@
                &&& final(build).config.secret_args@ == old(build).config.secret_args@
                &&& final(build).config.labels@ == old(build).config.labels@
                &&& final(build).config.pre_build.command@ == old(build).config.pre_build.command@
                &&& final(build).config.dockerfile@ == old(build).config.dockerfile@
                &&& same_texts(old(build).config.extra_args@, final(build).config.extra_args@)
            },
            !old(build).config.skip_secret_interp && r is Ok ==> {
                &&& becomes(
                    old(self)@,
                    old(build).config.build_args@,
                    final(build).config.build_args@,
                )
                &&& becomes(
                    old(self)@,
                    old(build).config.secret_args@,
                    final(build).config.secret_args@,
                )
                &&& becomes(
                    old(self)@,
                    old(build).config.labels@,
                    final(build).config.labels@,
                )
                &&& becomes(
                    old(self)@,
                    old(build).config.pre_build.command@,
                    final(build).config.pre_build.command@,
                )
                &&& becomes(
                    old(self)@,
                    old(build).config.dockerfile@,
                    final(build).config.dockerfile@,
                )
                &&& all_become(
                    old(self)@,
                    old(build).config.extra_args@,
                    final(build).config.extra_args@,
                )
            },
    {
        let done = self.run_build(build);
        proof {
            every_text_of_build_is_interpolated(old(self)@, old(build).config, build.config);
        }
        match done {
            Ok(_) => Ok(self),
            Err(error) => Err(error),
        }
    }

    fn run_deployment(&mut self, deployment: &mut Deployment) -> (r: Result<(), InterpolateError>)
        ensures
            ({
                let (end, parts) = interpolated_resource(
                    old(self)@,
                    old(deployment).config.skip_secret_interp,
                    deployment_parts(old(deployment).config),
                );
                &&& deployment_parts(final(deployment).config) == parts
                &&& end == (Progress { state: final(self)@, error: error_of(r) })
            }),
            final(deployment).config.skip_secret_interp
                == old(deployment).config.skip_secret_interp,
            final(deployment).config.extra_args@.len() == old(deployment).config.extra_args@.len(),
    {
        if deployment.config.skip_secret_interp {
            return Ok(());
        }
        let ghost start = Progress { state: self@, error: None };
        let ghost texts = deployment_parts(deployment.config).take(5);
        let done: Result<(), InterpolateError> = Ok(());
        let done = self.advance(done, Place::Target, &mut deployment.config.environment);
        let done = self.advance(done, Place::Target, &mut deployment.config.ports);
        let done = self.advance(done, Place::Target, &mut deployment.config.volumes);
        let done = self.advance(done, Place::Target, &mut deployment.config.labels);
        let done = self.advance(done, Place::Target, &mut deployment.config.command);
        proof {
            lemma_five_steps(start, texts);
            assert(steps(start, texts).1 =~= deployment_parts(deployment.config).take(5));
        }
        let ghost extra_args = placed(Place::ExtraArg, views(deployment.config.extra_args@));
        let done = self.advance_all(done, Place::ExtraArg, &mut deployment.config.extra_args);
        proof {
            lemma_steps_append(start, texts, extra_args);
            assert(deployment_parts(old(deployment).config) =~= texts + extra_args);
            assert(deployment_parts(deployment.config) =~= steps(start, texts + extra_args).1);
        }
        done
    }

    /// Interpolates every text of a deployment, unless it asks to be skipped.
    pub fn interpolate_deployment(&mut self, deployment: &mut Deployment) -> (r: Result<
        &mut Self,
        InterpolateError,
    >)
        ensures
            ({
                let (end, parts) = interpolated_resource(
                    old(self)@,
                    old(deployment).config.skip_secret_interp,
                    deployment_parts(old(deployment).config),
                );
                &&& deployment_parts(final(deployment).config) == parts
                &&& match r {
                    Ok(me) => end.error is None && (*me)@ == end.state && *final(self)
                        == *final(me),
                    Err(error) => end.error == Some(error@) && final(self)@ == end.state,
                }
            }),
            final(deployment).config.skip_secret_interp
                == old(deployment).config.skip_secret_interp,
            final(deployment).config.extra_args@.len() == old(deployment).config.extra_args@.len(),
            old(deployment).config.skip_secret_interp ==> {
                &&& r matches Ok(me) && (*me)@ == old(self)@
                &&& final(deployment).config.environment@ == old(deployment).config.environment@
                &&& final(deployment).config.ports@ == old(deployment).config.ports@
                &&& final(deployment).config.volumes@ == old(deployment).config.volumes@
                &&& final(deployment).config.labels@ == old(deployment).config.labels@
                &&& final(deployment).config.command@ == old(deployment).config.command@
                &&& same_texts(old(deployment).config.extra_args@, final(deployment).config.extra_args@)
            },
            !old(deployment).config.skip_secret_interp && r is Ok ==> {
                &&& becomes(
                    old(self)@,
                    old(deployment).config.environment@,
                    final(deployment).config.environment@,
                )
                &&& becomes(
                    old(self)@,
                    old(deployment).config.ports@,
                    final(deployment).config.ports@,
                )
                &&& becomes(
                    old(self)@,
                    old(deployment).config.volumes@,
                    final(deployment).config.volumes@,
                )
                &&& becomes(
                    old(self)@,
                    old(deployment).config.labels@,
                    final(deployment).config.labels@,
                )
                &&& becomes(
                    old(self)@,
                    old(deployment).config.command@,
                    final(deployment).config.command@,
                )
                &&& all_become(
                    old(self)@,
                    old(deployment).config.extra_args@,
                    final(deployment).config.extra_args@,
                )
            },
    {
        let done = self.run_deployment(deployment);
        proof {
            every_text_of_deployment_is_interpolated(old(self)@, old(deployment).config, deployment.config);
        }
        match done {
            Ok(_) => Ok(self),
            Err(error) => Err(error),
        }
    }
}

} // verus!
