use trajectory_gpu::frame::{FrameAction, FramePhase, FrameSequencer};
use trajectory_gpu::trajectory::{
    animation_params, group_count, threadgroup_count, AnimationParams, Extent, FlowType, TrajectoryPlan,
};

#[test]
fn threadgroup_counts_cover_canvas() {
    assert_eq!(threadgroup_count(Extent { width: 1, height: 1 }), (1, 1));
    assert_eq!(threadgroup_count(Extent { width: 16, height: 16 }), (1, 1));
    assert_eq!(threadgroup_count(Extent { width: 17, height: 16 }), (2, 1));
    assert_eq!(threadgroup_count(Extent { width: 33, height: 17 }), (3, 2));
}

#[test]
fn group_count_edges() {
    assert_eq!(group_count(0), 0);
    assert_eq!(group_count(32), 2);
    assert_eq!(group_count(u32::MAX), 268_435_456);
}

#[test]
fn every_frame_fades_then_advects_then_draws() {
    let mut seq = FrameSequencer::new();
    for _ in 0..3 {
        assert_eq!(seq.phase(), FramePhase::Idle);
        let steps = seq.frame();
        assert_eq!(
            steps,
            vec![FrameAction::DispatchFadeOut, FrameAction::DispatchAdvect, FrameAction::DrawCanvas]
        );
    }
}

#[test]
fn advance_walks_the_phases() {
    let mut seq = FrameSequencer::new();
    assert_eq!(seq.advance(), Some(FrameAction::DispatchFadeOut));
    assert_eq!(seq.phase(), FramePhase::ComputeFadeOut);
    assert_eq!(seq.advance(), Some(FrameAction::DispatchAdvect));
    assert_eq!(seq.phase(), FramePhase::ComputeAdvectParticles);
    assert_eq!(seq.advance(), Some(FrameAction::DrawCanvas));
    assert_eq!(seq.phase(), FramePhase::RenderPass);
    assert_eq!(seq.advance(), None);
    assert_eq!(seq.phase(), FramePhase::Idle);
}

#[test]
fn animation_of_each_flow() {
    assert_eq!(
        animation_params(FlowType::Poiseuille),
        Some(AnimationParams { life_time: 60, fade_out_hundredths: 95, speed_hundredths: 2000 })
    );
    assert_eq!(
        animation_params(FlowType::LidDrivenCavity),
        Some(AnimationParams { life_time: 600, fade_out_hundredths: 99, speed_hundredths: 2000 })
    );
    assert_eq!(animation_params(FlowType::PigmentsDiffuse), None);
    assert_eq!(animation_params(FlowType::InkDiffuse), None);
}

#[test]
fn trajectory_plan_sizes_both_programs() {
    let plan = TrajectoryPlan::new(
        Extent { width: 800, height: 601 },
        Extent { width: 100, height: 17 },
        FlowType::LidDrivenCavity,
    )
    .unwrap();
    assert_eq!(plan.fade_groups, Extent { width: 50, height: 38 });
    assert_eq!(plan.particle_groups, Extent { width: 7, height: 2 });
    assert_eq!(plan.animation.life_time, 600);
    assert!(TrajectoryPlan::new(Extent { width: 1, height: 1 }, Extent { width: 1, height: 1 }, FlowType::InkDiffuse).is_none());
}
