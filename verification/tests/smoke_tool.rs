use photo2video::scalar::Scalar;
use photo2video::smoke_tool::{
    layer_name, parse_color, parse_signed, region_of, tool_params, tool_usage,
};

fn args(v: &[&str]) -> Vec<String> {
    v.iter().map(|s| s.to_string()).collect()
}

#[test]
fn signed_numbers_are_read_as_by_the_standard_library() {
    for s in [
        "0", "-0", "+5", "-5", "2147483647", "2147483648", "-2147483648", "-2147483649", "", "-",
        "+", "+-1", " 1", "1.5", "x",
    ] {
        assert_eq!(parse_signed(s), s.parse::<i32>().ok(), "{s}");
    }
}

#[test]
fn colours_are_three_numbers() {
    assert_eq!(parse_color("255, 128 ,0"), Some([255, 128, 0]));
    assert_eq!(parse_color("1,2"), None);
    assert_eq!(parse_color("1,2,3,4"), None);
    assert_eq!(parse_color("1,x,2,3"), Some([1, 2, 3]));
    assert_eq!(parse_color("1,2,256"), None);
}

#[test]
fn parameters_come_from_the_command_line() {
    let p = tool_params(&args(&["smoke_cli", "i", "o"]), None, None, None);
    assert_eq!((p.strength, p.detail, p.black, p.feather, p.tolerance), (80, 60, 30, 25, 30));
    assert!(!p.has_protect());
    let half = Scalar { bits: 0.5f32.to_bits() };
    let region = region_of(&vec![half; 4]);
    assert!(region.is_some());
    assert!(region_of(&vec![half; 3]).is_none());
    let p = tool_params(
        &args(&["smoke_cli", "i", "o", "90", "bad", "-7"]),
        region,
        Some("1,2,3"),
        Some("55"),
    );
    assert_eq!((p.strength, p.detail, p.black, p.tolerance), (90, 60, -7, 55));
    assert_eq!(p.region, region);
    assert_eq!(p.protect_colors(), vec![(0, [1, 2, 3])]);
    assert!(tool_usage(&args(&["smoke_cli", "i"])).is_some());
    assert!(tool_usage(&args(&["smoke_cli", "i", "o"])).is_none());
}

#[test]
fn layer_stands_beside_the_result() {
    for s in ["out.jpg", "a.jpg.jpg", "..jpg", "x.jpeg", "", ".jp"] {
        assert_eq!(layer_name(s), s.replace(".jpg", "_layer.jpg"));
    }
}
