use tf2_rs::buffer::BufferCore;
use tf2_rs::error::{
    call_bool, call_bool_with_diag, call_out, check_status, map_cxx_err, opens_with, settle,
    settle_with_diag,
    Tf2Errc, Tf2Error, Tf2Status,
};
use tf2_rs::time::{nanos_of, LookupTime, Tf2Time, TimeSpec};
use tf2_rs::transform::Header;
use tf2_rs::transform_stamped::{exponent_of, Transform, TransformStamped};

fn status(code: Tf2Errc, message: &str) -> Tf2Status {
    Tf2Status { code, message: message.to_string() }
}

#[test]
fn check_status_maps_each_code() {
    assert_eq!(check_status(status(Tf2Errc::Success, "fine")), Ok(()));
    assert_eq!(
        check_status(status(Tf2Errc::Lookup, "a")),
        Err(Tf2Error::Lookup("a".to_string()))
    );
    assert_eq!(
        check_status(status(Tf2Errc::Connectivity, "b")),
        Err(Tf2Error::Connectivity("b".to_string()))
    );
    assert_eq!(
        check_status(status(Tf2Errc::Extrapolation, "c")),
        Err(Tf2Error::Extrapolation("c".to_string()))
    );
    assert_eq!(
        check_status(status(Tf2Errc::InvalidArgument, "d")),
        Err(Tf2Error::InvalidArgument("d".to_string()))
    );
    assert_eq!(check_status(status(Tf2Errc::Other, "e")), Err(Tf2Error::Other("e".to_string())));
}

#[test]
fn error_kind_and_message() {
    let e = Tf2Error::of_kind(Tf2Errc::Extrapolation, "late".to_string());
    assert_eq!(e, Tf2Error::Extrapolation("late".to_string()));
    assert_eq!(e.kind(), Tf2Errc::Extrapolation);
    assert_eq!(e.message(), "late");
    assert_eq!(
        Tf2Error::of_kind(Tf2Errc::Success, "odd".to_string()),
        Tf2Error::Other("odd".to_string())
    );
    assert_eq!(Tf2Error::Other("x".to_string()).kind(), Tf2Errc::Other);
}

#[test]
fn call_out_keeps_the_value_on_success_only() {
    let ok = call_out(|| (41u32 + 1, status(Tf2Errc::Success, "")));
    assert_eq!(ok, Ok(42));
    let failed: Result<u32, Tf2Error> = call_out(|| (7, status(Tf2Errc::Lookup, "no frame")));
    assert_eq!(failed, Err(Tf2Error::Lookup("no frame".to_string())));
}

#[test]
fn call_bool_keeps_the_answer_on_success_only() {
    assert_eq!(call_bool(|| (true, status(Tf2Errc::Success, ""))), Ok(true));
    assert_eq!(call_bool(|| (false, status(Tf2Errc::Success, "why not"))), Ok(false));
    assert_eq!(
        call_bool(|| (true, status(Tf2Errc::Other, "boom"))),
        Err(Tf2Error::Other("boom".to_string()))
    );
}

#[test]
fn time_spec_resolves_against_the_message() {
    let header = Header { stamp_sec: 12, stamp_nanosec: 34, frame_id: "lidar".to_string() };
    assert_eq!(TimeSpec::Latest.resolve(&header), LookupTime::Latest);
    assert_eq!(
        TimeSpec::Stamp { sec: 5, nanosec: 6 }.resolve(&header),
        LookupTime::Time { sec: 5, nanosec: 6 }
    );
    assert_eq!(TimeSpec::FromMsg.resolve(&header), LookupTime::Time { sec: 12, nanosec: 34 });
    assert_eq!(LookupTime::from_msg(&header), LookupTime::Time { sec: 12, nanosec: 34 });
}

#[test]
fn lookup_time_on_the_wire() {
    assert_eq!(LookupTime::Latest.to_ffi(), Tf2Time { sec: 0, nanosec: 0 });
    assert_eq!(LookupTime::Time { sec: -4, nanosec: 9 }.to_ffi(), Tf2Time { sec: -4, nanosec: 9 });
    assert_eq!(LookupTime::Latest.resolve_instant(), None);
    assert_eq!(LookupTime::Time { sec: 0, nanosec: 0 }.resolve_instant(), None);
    assert_eq!(LookupTime::Time { sec: 0, nanosec: 1 }.resolve_instant(), Some(1));
    assert_eq!(
        LookupTime::Time { sec: 3, nanosec: 250 }.resolve_instant(),
        Some(3_000_000_250)
    );
}

#[test]
fn stamps_combine_into_nanoseconds() {
    assert_eq!(nanos_of(0, 0), 0);
    assert_eq!(nanos_of(1, 1), 1_000_000_001);
    assert_eq!(nanos_of(-1, 999_999_999), -1);
    assert_eq!(nanos_of(i32::MAX, u32::MAX), 2_147_483_647_000_000_000 + 4_294_967_295);
    assert_eq!(nanos_of(i32::MIN, 0), -2_147_483_648_000_000_000);
}

#[test]
fn exponent_field_of_known_numbers() {
    assert_eq!(exponent_of(1.0f64.to_bits()), 1023);
    assert_eq!(exponent_of((-2.0f64).to_bits()), 1024);
    assert_eq!(exponent_of(0.0f64.to_bits()), 0);
    assert_eq!(exponent_of(f64::INFINITY.to_bits()), 0x7ff);
    assert_eq!(exponent_of(f64::NAN.to_bits()), 0x7ff);
    assert_eq!(Transform::identity().rw, 1.0f64.to_bits());
}

#[test]
fn stamped_pose_round_trips() {
    let p = Transform {
        tx: 1.5f64.to_bits(),
        ty: 2.5f64.to_bits(),
        tz: 3.5f64.to_bits(),
        rx: 0.1f64.to_bits(),
        ry: 0.2f64.to_bits(),
        rz: 0.3f64.to_bits(),
        rw: 0.9f64.to_bits(),
    };
    let tf = TransformStamped::new(3, 4, "map".to_string(), "base".to_string(), p);
    assert_eq!(tf.stamp_sec, 3);
    assert_eq!(tf.stamp_nanosec, 4);
    assert_eq!(tf.parent_frame, "map");
    assert_eq!(tf.child_frame, "base");
    assert_eq!(tf.translation, [p.tx, p.ty, p.tz]);
    assert_eq!(tf.rotation, [p.rx, p.ry, p.rz, p.rw]);
    assert_eq!(tf.pose(), p);
}

#[test]
fn transform_resolves_the_path_for_a_message() {
    let mut buf = BufferCore::new(10_000_000_000);
    let p = Transform::identity();
    let tf = TransformStamped::new(10, 0, "map".to_string(), "lidar".to_string(), p);
    buf.set_transform(&tf, "test", false).unwrap();
    let tf = TransformStamped::new(12, 0, "map".to_string(), "lidar".to_string(), p);
    buf.set_transform(&tf, "test", false).unwrap();
    let header = Header { stamp_sec: 11, stamp_nanosec: 0, frame_id: "lidar".to_string() };
    let path = buf.transform(&header, "map", TimeSpec::FromMsg).unwrap();
    assert_eq!((path.stamp_sec, path.stamp_nanosec), (11, 0));
    assert_eq!(path.source_frame, "lidar");
    assert_eq!(path.target_frame, "map");
    assert_eq!(path.source_edges.len(), 1);
    let path = buf.transform(&header, "map", TimeSpec::Latest).unwrap();
    assert_eq!((path.stamp_sec, path.stamp_nanosec), (12, 0));
    let err = buf.transform(&header, "map", TimeSpec::Stamp { sec: 13, nanosec: 0 }).unwrap_err();
    assert!(matches!(err, Tf2Error::Extrapolation(_)));
}

#[test]
fn exception_text_is_classified_by_its_type() {
    assert_eq!(
        map_cxx_err("[tf2::LookupException]: no frame"),
        Tf2Error::Lookup("[tf2::LookupException]: no frame".to_string())
    );
    assert_eq!(
        map_cxx_err("[tf2::ConnectivityException]: apart"),
        Tf2Error::Connectivity("[tf2::ConnectivityException]: apart".to_string())
    );
    assert_eq!(
        map_cxx_err("[tf2::ExtrapolationException]: late"),
        Tf2Error::Extrapolation("[tf2::ExtrapolationException]: late".to_string())
    );
    assert_eq!(
        map_cxx_err("[tf2::InvalidArgumentException]: nan"),
        Tf2Error::InvalidArgument("[tf2::InvalidArgumentException]: nan".to_string())
    );
    assert_eq!(
        map_cxx_err("[std::runtime_error]: boom"),
        Tf2Error::Other("[std::runtime_error]: boom".to_string())
    );
    assert_eq!(map_cxx_err("no bracket at all"), Tf2Error::Other("no bracket at all".to_string()));
    assert_eq!(map_cxx_err(""), Tf2Error::Other("".to_string()));
    // every text is taken; what is not written as a known type is unclassified
    for odd in [
        "]",
        "]abc",
        "[]",
        "[",
        "\u{e9}]x",
        "\u{e9}tf2::LookupException]: x",
        "Xtf2::LookupException]: x",
        "tf2::LookupException",
        "[tf2::LookupException",
        " [tf2::LookupException]: x",
        "[tf2::lookupexception]: x",
    ] {
        assert_eq!(map_cxx_err(odd), Tf2Error::Other(odd.to_string()));
    }
    assert_eq!(
        map_cxx_err("[tf2::LookupException]"),
        Tf2Error::Lookup("[tf2::LookupException]".to_string())
    );
    assert!(opens_with("[tf2::X]: \u{e9}", "[tf2::X]"));
    assert!(opens_with("abc", ""));
    assert!(opens_with("\u{e9}\u{e9}b", "\u{e9}\u{e9}"));
    assert!(!opens_with("ab", "abc"));
    assert!(!opens_with("abd", "abc"));
    // only the first closing bracket counts
    assert_eq!(
        map_cxx_err("[tf2::LookupException]]: x"),
        Tf2Error::Lookup("[tf2::LookupException]]: x".to_string())
    );
    assert_eq!(
        map_cxx_err("[tf2::LookupException ]: x"),
        Tf2Error::Other("[tf2::LookupException ]: x".to_string())
    );
}

#[test]
fn settle_keeps_or_fails() {
    assert_eq!(settle(5u8, status(Tf2Errc::Success, "note")), Ok(5));
    assert_eq!(
        settle(5u8, status(Tf2Errc::Connectivity, "apart")),
        Err(Tf2Error::Connectivity("apart".to_string()))
    );
}

#[test]
fn diagnosis_goes_with_a_negative_answer_only() {
    assert_eq!(settle_with_diag(true, status(Tf2Errc::Success, "unused")), Ok((true, None)));
    assert_eq!(
        settle_with_diag(false, status(Tf2Errc::Success, "frame missing")),
        Ok((false, Some("frame missing".to_string())))
    );
    assert_eq!(settle_with_diag(false, status(Tf2Errc::Success, "")), Ok((false, None)));
    assert_eq!(
        settle_with_diag(false, status(Tf2Errc::Extrapolation, "late")),
        Err(Tf2Error::Extrapolation("late".to_string()))
    );
    assert_eq!(
        call_bool_with_diag(|| (false, status(Tf2Errc::Success, "why"))),
        Ok((false, Some("why".to_string())))
    );
    assert_eq!(
        call_bool_with_diag(|| (true, status(Tf2Errc::Lookup, "gone"))),
        Err(Tf2Error::Lookup("gone".to_string()))
    );
}

#[test]
fn travelling_record_keeps_every_field() {
    let p = Transform {
        tx: 1.5f64.to_bits(),
        ty: 2.5f64.to_bits(),
        tz: 3.5f64.to_bits(),
        rx: 0.1f64.to_bits(),
        ry: 0.2f64.to_bits(),
        rz: 0.3f64.to_bits(),
        rw: 0.9f64.to_bits(),
    };
    let tf = TransformStamped::new(3, 4, "map".to_string(), "base".to_string(), p);
    let v = tf.to_ffi();
    assert_eq!(v.stamp, Tf2Time { sec: 3, nanosec: 4 });
    assert_eq!(v.parent_frame, "map");
    assert_eq!(v.child_frame, "base");
    assert_eq!(f64::from_bits(v.translation_x), 1.5);
    assert_eq!(f64::from_bits(v.translation_y), 2.5);
    assert_eq!(f64::from_bits(v.translation_z), 3.5);
    assert_eq!(f64::from_bits(v.rotation_x), 0.1);
    assert_eq!(f64::from_bits(v.rotation_y), 0.2);
    assert_eq!(f64::from_bits(v.rotation_z), 0.3);
    assert_eq!(f64::from_bits(v.rotation_w), 0.9);
    let back = TransformStamped::from_ffi(v);
    assert_eq!(back.stamp_sec, 3);
    assert_eq!(back.stamp_nanosec, 4);
    assert_eq!(back.parent_frame, "map");
    assert_eq!(back.child_frame, "base");
    assert_eq!(back.pose(), p);
}

#[test]
fn status_codes_and_their_numbers() {
    let all = [
        (Tf2Errc::Success, 0),
        (Tf2Errc::Lookup, 1),
        (Tf2Errc::Connectivity, 2),
        (Tf2Errc::Extrapolation, 3),
        (Tf2Errc::InvalidArgument, 4),
        (Tf2Errc::Other, 100),
    ];
    for (code, n) in all {
        assert_eq!(code.code(), n);
        assert_eq!(Tf2Errc::from_code(n), code);
    }
    assert_eq!(Tf2Errc::from_code(5), Tf2Errc::Other);
    assert_eq!(Tf2Errc::from_code(-1), Tf2Errc::Other);
    assert_eq!(Tf2Errc::from_code(99), Tf2Errc::Other);
}
