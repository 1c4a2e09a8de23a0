use orbistoun_gpu::backend::ShaderStage;
use orbistoun_gpu::pipeline::{reconcile, Candidate, Disagreement, Queue, RegisteredShader, SubmissionReport};
use orbistoun_gpu::registers::ShaderCandidate;

fn inferred(stage: &str, address: u64) -> ShaderCandidate {
    ShaderCandidate { stage: stage.to_string(), address, packet_offset: 0 }
}

#[test]
fn registration_wins_and_every_overlap_is_counted() {
    let registered = [
        RegisteredShader { address: 0x1000, stage: ShaderStage::Vertex },
        RegisteredShader { address: 0x2000, stage: ShaderStage::Fragment },
    ];
    let found = [inferred("vertex", 0x1000), inferred("pixel", 0x2400), inferred("geometry", 0x9000)];
    let mut report = SubmissionReport::default();
    let chosen = reconcile(Queue::Draw, &registered, &found, &mut report);
    assert_eq!(
        chosen,
        vec![
            Candidate { address: 0x1000, stage: ShaderStage::Vertex },
            Candidate { address: 0x2000, stage: ShaderStage::Fragment },
        ]
    );
    assert_eq!((report.registered, report.inferred, report.agreed), (2, 3, 1));
    assert_eq!(
        report.disagreed,
        vec![Disagreement { stage: ShaderStage::Fragment, registered: 0x2000, inferred: 0x2400 }]
    );
    assert!(report.impossible_stages.is_empty());
}

#[test]
fn an_inferred_address_fills_a_stage_nothing_registered_and_the_first_one_stands() {
    let found = [inferred("fragment", 0x3000), inferred("vertex", 0x4000), inferred("fragment", 0x3100)];
    let mut report = SubmissionReport::default();
    let chosen = reconcile(Queue::Draw, &[], &found, &mut report);
    assert_eq!(
        chosen,
        vec![
            Candidate { address: 0x4000, stage: ShaderStage::Vertex },
            Candidate { address: 0x3000, stage: ShaderStage::Fragment },
        ],
        "in stage order"
    );
    assert_eq!(report.agreed, 0);
    assert_eq!(
        report.disagreed,
        vec![Disagreement { stage: ShaderStage::Fragment, registered: 0x3000, inferred: 0x3100 }]
    );
}

#[test]
fn a_stage_the_queue_does_not_permit_is_noted_not_dropped() {
    let registered = [RegisteredShader { address: 0x1000, stage: ShaderStage::Vertex }];
    let found = [inferred("compute", 0x5000), inferred("vertex", 0x6000)];
    let mut report = SubmissionReport::default();
    let chosen = reconcile(Queue::Compute, &registered, &found, &mut report);
    assert_eq!(chosen, vec![Candidate { address: 0x5000, stage: ShaderStage::Compute }]);
    assert_eq!(
        report.impossible_stages,
        vec!["registered Vertex on Compute".to_string(), "inferred Vertex on Compute".to_string()]
    );
    let mut report = SubmissionReport::default();
    let chosen = reconcile(Queue::Draw, &[], &found, &mut report);
    assert_eq!(chosen, vec![Candidate { address: 0x6000, stage: ShaderStage::Vertex }]);
    assert_eq!(report.impossible_stages, vec!["inferred Compute on Draw".to_string()]);
}
