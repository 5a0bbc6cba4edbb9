use docker_image::pipeline::{Pipeline, PipelineError, Step};

fn three_layers() -> Pipeline {
    Pipeline::new(vec!["sha256:l1".to_string(), "sha256:l2".to_string(), "sha256:l3".to_string()])
}

#[test]
fn later_download_waits_for_earlier_unpack() {
    let mut p = three_layers();
    assert!(matches!(p.next_step(), Step::Wait));
    p.download_finished(1, Ok("/c/l2".to_string()));
    assert!(matches!(p.next_step(), Step::Wait));
    p.download_finished(0, Ok("/c/l1".to_string()));
    match p.next_step() {
        Step::Unpack { index, digest, path } => {
            assert_eq!(index, 0);
            assert_eq!(digest, "sha256:l1");
            assert_eq!(path, "/c/l1");
        }
        _ => panic!("layer 1 should unpack"),
    }
    assert!(matches!(p.next_step(), Step::Wait));
    p.unpack_finished(Ok(()));
    assert!(matches!(p.next_step(), Step::Unpack { index: 1, .. }));
    p.download_finished(2, Ok("/c/l3".to_string()));
    assert!(matches!(p.next_step(), Step::Wait));
    p.unpack_finished(Ok(()));
    assert!(matches!(p.next_step(), Step::Unpack { index: 2, .. }));
    p.unpack_finished(Ok(()));
    assert!(matches!(p.next_step(), Step::Finished(Ok(()))));
}

#[test]
fn failed_download_stops_unpacking_and_is_reported() {
    let mut p = three_layers();
    p.download_finished(0, Ok("/c/l1".to_string()));
    assert!(matches!(p.next_step(), Step::Unpack { index: 0, .. }));
    p.download_finished(1, Err("network error".to_string()));
    p.download_finished(2, Ok("/c/l3".to_string()));
    assert!(matches!(p.next_step(), Step::Wait));
    p.unpack_finished(Ok(()));
    match p.next_step() {
        Step::Finished(Err(PipelineError::Downloads(errors))) => {
            assert_eq!(errors, vec!["network error".to_string()]);
        }
        _ => panic!("the run should fail with the download error"),
    }
    assert_eq!(p.unpacked, 1);
}

#[test]
fn unpack_error_takes_precedence() {
    let mut p = three_layers();
    p.download_finished(0, Ok("/c/l1".to_string()));
    assert!(matches!(p.next_step(), Step::Unpack { index: 0, .. }));
    p.unpack_finished(Err("bad tar".to_string()));
    assert!(matches!(p.next_step(), Step::Wait));
    p.download_finished(1, Err("network error".to_string()));
    p.download_finished(2, Ok("/c/l3".to_string()));
    match p.next_step() {
        Step::Finished(Err(PipelineError::Unpack(e))) => assert_eq!(e, "bad tar"),
        _ => panic!("the unpack error should win"),
    }
}

#[test]
fn empty_manifest_finishes_at_once() {
    let mut p = Pipeline::new(Vec::new());
    assert!(matches!(p.next_step(), Step::Finished(Ok(()))));
}

#[test]
fn all_download_errors_in_manifest_order() {
    let mut p = three_layers();
    p.download_finished(2, Err("e3".to_string()));
    p.download_finished(0, Err("e1".to_string()));
    p.download_finished(1, Ok("/c/l2".to_string()));
    match p.next_step() {
        Step::Finished(Err(PipelineError::Downloads(errors))) => {
            assert_eq!(errors, vec!["e1".to_string(), "e3".to_string()]);
        }
        _ => panic!("both errors should be reported"),
    }
}
