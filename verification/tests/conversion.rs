use photo2video::conversion::{Conversion, ConvertState, WorkerMsg};
use photo2video::scalar::Scalar;

fn half() -> Scalar {
    Scalar { bits: 0.5f32.to_bits() }
}

#[test]
fn reports_move_the_conversion_on() {
    let mut c = Conversion::new();
    assert!(!c.is_working());
    assert!(!c.on_report(WorkerMsg::Status("ignored".to_string()), false));
    assert!(matches!(c.state, ConvertState::Idle));
    c.begin("out.mp4");
    assert!(c.is_working());
    assert_eq!(c.output.as_deref(), Some("out.mp4"));
    assert!(!c.on_report(WorkerMsg::Progress(half()), false));
    assert!(!c.on_report(WorkerMsg::Status("轉換中".to_string()), false));
    match &c.state {
        ConvertState::Working { progress, status } => {
            assert_eq!((*progress, status.as_str()), (half(), "轉換中"))
        }
        _ => panic!("not working"),
    }
    assert!(c.on_report(WorkerMsg::Done("out.mp4".to_string()), false));
    assert!(matches!(&c.state, ConvertState::Done(p) if p == "out.mp4"));
    assert_eq!(c.output, None);
    c.clear_result_banner();
    assert!(matches!(c.state, ConvertState::Idle));
}

#[test]
fn cancelled_conversion_is_no_failure() {
    let mut c = Conversion::new();
    assert!(!c.cancel());
    c.begin("o");
    assert!(c.cancel());
    assert!(matches!(&c.state, ConvertState::Working { status, .. } if status == "正在取消…"));
    assert!(c.on_report(WorkerMsg::Error("killed".to_string()), true));
    assert!(matches!(c.state, ConvertState::Idle));
}

#[test]
fn failed_conversion_is_told() {
    let mut c = Conversion::new();
    c.begin("o");
    c.on_report(WorkerMsg::Error("bad".to_string()), false);
    assert!(matches!(&c.state, ConvertState::Error(e) if e == "bad"));
    c.clear_result_banner();
    assert!(matches!(c.state, ConvertState::Idle));
}

#[test]
fn lost_conversion_is_cleaned_up() {
    let mut c = Conversion::new();
    let nothing = c.on_lost();
    assert!(!nothing.stop && nothing.remove.is_none());
    c.begin("o.mp4");
    let left = c.on_lost();
    assert!(left.stop);
    assert_eq!(left.remove.as_deref(), Some("o.mp4"));
    assert!(matches!(&c.state, ConvertState::Error(e) if e.starts_with("轉換程序異常中斷")));
}
