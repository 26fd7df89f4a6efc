use photo2video::adjust::Adjustments;

fn zero() -> Adjustments {
    Adjustments::default()
}

#[test]
fn neutral_adjustments_need_no_filter() {
    assert!(zero().is_neutral());
    assert_eq!(zero().filter_chain(13), None);
}

#[test]
fn values_are_clamped() {
    let a = Adjustments { temp: 500, blacks: -101, clarity: 7, ..zero() }.clamped();
    assert_eq!((a.temp, a.blacks, a.clarity), (100, -100, 7));
    assert_eq!(a.clamped(), a);
}

#[test]
fn values_and_values_mut_go_together() {
    let mut a = zero();
    for (i, v) in a.values_mut().into_iter().enumerate() {
        *v = i as i32;
    }
    assert_eq!(a.values(), [0, 1, 2, 3, 4, 5, 6, 7, 8, 9, 10]);
    assert_eq!((a.tint, a.saturation), (1, 10));
}

#[test]
fn each_adjustment_has_its_filter() {
    let one = |a: Adjustments| a.filter_chain(13).unwrap();
    assert_eq!(one(Adjustments { temp: 100, ..zero() }), "colortemperature=temperature=3000");
    assert_eq!(one(Adjustments { temp: -100, ..zero() }), "colortemperature=temperature=10000");
    assert_eq!(one(Adjustments { tint: 50, ..zero() }), "colorbalance=gm=-0.1500");
    assert_eq!(one(Adjustments { exposure: -33, ..zero() }), "exposure=exposure=-0.990");
    assert_eq!(
        one(Adjustments { contrast: 10, brightness: -5, saturation: 20, ..zero() }),
        "eq=contrast=1.0800:brightness=-0.0200:saturation=1.2000"
    );
    assert_eq!(
        one(Adjustments { blacks: -50, shadows: 10, whites: 20, ..zero() }),
        "curves=all='0.0000/0.0000 0.0600/0.0000 0.2500/0.2650 0.9700/1.0000 1.0000/1.0000'"
    );
    assert_eq!(
        one(Adjustments { blacks: 20, whites: -20, ..zero() }),
        "curves=all='0.0000/0.0300 1.0000/0.9700'"
    );
    assert_eq!(one(Adjustments { vibrance: 75, ..zero() }), "vibrance=intensity=1.5000");
    assert_eq!(
        one(Adjustments { clarity: 40, ..zero() }),
        "unsharp=luma_msize_x=13:luma_msize_y=13:luma_amount=0.6000"
    );
    assert_eq!(
        Adjustments { clarity: 40, ..zero() }.filter_chain(6).unwrap(),
        "unsharp=luma_msize_x=7:luma_msize_y=7:luma_amount=0.6000"
    );
    assert_eq!(
        Adjustments { clarity: -40, ..zero() }.filter_chain(1).unwrap(),
        "unsharp=luma_msize_x=3:luma_msize_y=3:luma_amount=-0.6000"
    );
}

#[test]
fn filters_are_joined_in_order() {
    let a = Adjustments { temp: 10, vibrance: -10, ..zero() };
    assert_eq!(
        a.filter_chain(13).unwrap(),
        "colortemperature=temperature=6150,vibrance=intensity=-0.2000"
    );
}

#[test]
fn texts_agree_with_floating_point() {
    for v in -100..=100i32 {
        if v == 0 {
            continue;
        }
        let f = v as f64;
        let kelvin = (6500.0 - f * 35.0).clamp(1000.0, 40000.0);
        let tint = -v as f64 / 100.0 * 0.3;
        let ev = f / 100.0 * 3.0;
        let amount = f * 0.015;
        assert_eq!(
            Adjustments { temp: v, tint: v, exposure: v, clarity: v, ..zero() }
                .filter_chain(13)
                .unwrap(),
            format!(
                "colortemperature=temperature={kelvin:.0},colorbalance=gm={tint:.4},\
                 exposure=exposure={ev:.3},\
                 unsharp=luma_msize_x=13:luma_msize_y=13:luma_amount={amount:.4}"
            )
        );
        let c = 1.0 + f * 0.008;
        let b = f * 0.004;
        let s = (1.0 + f * 0.01).max(0.0);
        let w = f / 100.0 * 2.0;
        assert_eq!(
            Adjustments { contrast: v, brightness: v, saturation: v, vibrance: v, ..zero() }
                .filter_chain(13)
                .unwrap(),
            format!("eq=contrast={c:.4}:brightness={b:.4}:saturation={s:.4},vibrance=intensity={w:.4}")
        );
        let y = (0.25 + f / 100.0 * 0.15).clamp(0.0, 1.0);
        assert_eq!(
            Adjustments { shadows: v, ..zero() }.filter_chain(13).unwrap(),
            format!("curves=all='0.0000/0.0000 0.2500/{y:.4} 1.0000/1.0000'")
        );
    }
}

#[test]
fn only_changed_sliders_are_taken_over() {
    let own = Adjustments { temp: 5, contrast: 6, ..zero() };
    let from = Adjustments { temp: 1, ..zero() };
    let to = Adjustments { temp: 1, contrast: 9, ..zero() };
    let a = own.with_changes(from, to);
    assert_eq!((a.temp, a.contrast), (5, 9));
}
