use tf2_rs::error::Tf2Error;
use tf2_rs::time::HasHeader;
use tf2_rs::transform::{find_coordinate, PointBits, PointCloud2, PointField, Header, XyzLayout, FLOAT32};
use tf2_rs::transform_stamped::{Transform, TransformStamped};

fn make_tf(
    parent_frame: &str,
    child_frame: &str,
    translation: [f64; 3],
    rotation_xyzw: [f64; 4],
    stamp: (i32, u32),
) -> TransformStamped {
    let pose = Transform {
        tx: translation[0].to_bits(),
        ty: translation[1].to_bits(),
        tz: translation[2].to_bits(),
        rx: rotation_xyzw[0].to_bits(),
        ry: rotation_xyzw[1].to_bits(),
        rz: rotation_xyzw[2].to_bits(),
        rw: rotation_xyzw[3].to_bits(),
    };
    TransformStamped::new(stamp.0, stamp.1, parent_frame.to_string(), child_frame.to_string(), pose)
}

fn field(name: &str, offset: u32, datatype: u8) -> PointField {
    PointField { name: name.to_string(), offset, datatype, count: 1 }
}

fn empty_cloud(frame: &str) -> PointCloud2 {
    PointCloud2 {
        header: Header { stamp_sec: 0, stamp_nanosec: 0, frame_id: frame.to_string() },
        height: 1,
        width: 0,
        fields: Vec::new(),
        is_bigendian: false,
        point_step: 0,
        row_step: 0,
        data: Vec::new(),
        is_dense: true,
    }
}

fn make_xyz_cloud(frame: &str, points: &[[f32; 3]]) -> PointCloud2 {
    let mut cloud = empty_cloud(frame);
    cloud.width = points.len() as u32;
    cloud.fields = vec![field("x", 0, FLOAT32), field("y", 4, FLOAT32), field("z", 8, FLOAT32)];
    cloud.point_step = 12;
    cloud.row_step = cloud.point_step * cloud.width;
    for p in points {
        cloud.data.extend_from_slice(&p[0].to_le_bytes());
        cloud.data.extend_from_slice(&p[1].to_le_bytes());
        cloud.data.extend_from_slice(&p[2].to_le_bytes());
    }
    cloud
}

fn read_xyz_cloud(cloud: &PointCloud2) -> Vec<[f32; 3]> {
    assert_eq!(cloud.point_step, 12, "test helper assumes point_step=12");
    cloud
        .data
        .chunks_exact(12)
        .map(|c| {
            let x = f32::from_le_bytes(c[0..4].try_into().unwrap());
            let y = f32::from_le_bytes(c[4..8].try_into().unwrap());
            let z = f32::from_le_bytes(c[8..12].try_into().unwrap());
            [x, y, z]
        })
        .collect()
}

fn assert_near(a: f32, b: f32, eps: f32, label: &str) {
    if (a - b).abs() > eps {
        panic!("{label}: {a} vs {b} (eps={eps})");
    }
}

/// Rotates by the quaternion of `tf`, then translates.
fn move_point(tf: &TransformStamped, p: [f64; 3]) -> [f64; 3] {
    let t = [
        f64::from_bits(tf.translation[0]),
        f64::from_bits(tf.translation[1]),
        f64::from_bits(tf.translation[2]),
    ];
    let (qx, qy, qz, qw) = (
        f64::from_bits(tf.rotation[0]),
        f64::from_bits(tf.rotation[1]),
        f64::from_bits(tf.rotation[2]),
        f64::from_bits(tf.rotation[3]),
    );
    let cx = qy * p[2] - qz * p[1];
    let cy = qz * p[0] - qx * p[2];
    let cz = qx * p[1] - qy * p[0];
    let dx = qy * (cz + qw * p[2]) - qz * (cy + qw * p[1]);
    let dy = qz * (cx + qw * p[0]) - qx * (cz + qw * p[2]);
    let dz = qx * (cy + qw * p[1]) - qy * (cx + qw * p[0]);
    [p[0] + 2.0 * dx + t[0], p[1] + 2.0 * dy + t[1], p[2] + 2.0 * dz + t[2]]
}

/// Applies `tf` to every point of the cloud: the library reads and writes the
/// cloud, the arithmetic is done here.
fn apply_transform(cloud: &PointCloud2, tf: &TransformStamped) -> Result<PointCloud2, Tf2Error> {
    let points = cloud.coordinates()?;
    let moved: Vec<PointBits> = points
        .iter()
        .map(|p| {
            let q = move_point(
                tf,
                [
                    f32::from_bits(p.x) as f64,
                    f32::from_bits(p.y) as f64,
                    f32::from_bits(p.z) as f64,
                ],
            );
            PointBits {
                x: (q[0] as f32).to_bits(),
                y: (q[1] as f32).to_bits(),
                z: (q[2] as f32).to_bits(),
            }
        })
        .collect();
    cloud.with_coordinates(&moved, &tf.parent_frame, tf.stamp_sec, tf.stamp_nanosec)
}

#[test]
fn transform_pointcloud2_translation_only() {
    let tf = make_tf("map", "lidar", [10.0, -2.0, 0.5], [0.0, 0.0, 0.0, 1.0], (123, 456));

    let cloud_in = make_xyz_cloud("lidar", &[[1.0, 2.0, 3.0]]);
    let cloud_out = apply_transform(&cloud_in, &tf).expect("transform should succeed");

    assert_eq!(cloud_out.header.frame_id, "map");
    assert_eq!(cloud_out.header.stamp_sec, 123);
    assert_eq!(cloud_out.header.stamp_nanosec, 456);

    let pts = read_xyz_cloud(&cloud_out);
    assert_eq!(pts.len(), 1);
    assert_near(pts[0][0], 11.0, 1e-5, "x");
    assert_near(pts[0][1], 0.0, 1e-5, "y");
    assert_near(pts[0][2], 3.5, 1e-5, "z");
}

#[test]
fn transform_pointcloud2_rotate_z_90deg() {
    let s = (0.5f64).sqrt();
    let tf = make_tf("map", "lidar", [0.0, 0.0, 0.0], [0.0, 0.0, s, s], (0, 0));

    let cloud_in = make_xyz_cloud("lidar", &[[1.0, 0.0, 0.0]]);
    let cloud_out = apply_transform(&cloud_in, &tf).expect("transform should succeed");

    let pts = read_xyz_cloud(&cloud_out);
    assert_eq!(pts.len(), 1);

    assert_near(pts[0][0], 0.0, 1e-5, "x");
    assert_near(pts[0][1], 1.0, 1e-5, "y");
    assert_near(pts[0][2], 0.0, 1e-5, "z");
}

#[test]
fn transform_pointcloud2_missing_xyz_fields_returns_err() {
    let tf = make_tf("map", "lidar", [0.0, 0.0, 0.0], [0.0, 0.0, 0.0, 1.0], (0, 0));

    let mut cloud = empty_cloud("lidar");
    cloud.height = 1;
    cloud.width = 1;
    cloud.point_step = 12;
    cloud.row_step = 12;
    cloud.is_bigendian = false;
    cloud.is_dense = true;
    cloud.data = vec![0u8; 12];

    let res = apply_transform(&cloud, &tf);
    assert!(
        matches!(res, Err(Tf2Error::InvalidArgument(_)) | Err(Tf2Error::Other(_))),
        "expected an error for malformed PointCloud2, got: {res:?}"
    );
}

#[test]
fn missing_fields_fail_as_invalid_argument_and_leave_the_cloud_alone() {
    let mut cloud = make_xyz_cloud("lidar", &[[1.0, 2.0, 3.0]]);
    cloud.fields.remove(2);
    let bytes = cloud.data.clone();
    assert!(matches!(cloud.xyz_layout(), Err(Tf2Error::InvalidArgument(_))));
    assert!(matches!(cloud.coordinates(), Err(Tf2Error::InvalidArgument(_))));
    let points = vec![PointBits { x: 0, y: 0, z: 0 }];
    let err = cloud.with_coordinates(&points, "map", 1, 2).unwrap_err();
    assert_eq!(err, Tf2Error::InvalidArgument("transform rejected".to_string()));
    assert_eq!(cloud.data, bytes);
    assert_eq!(cloud.header.frame_id, "lidar");
    assert_eq!(cloud.fields.len(), 2);
}

#[test]
fn coordinate_of_another_datatype_is_not_located() {
    let mut cloud = make_xyz_cloud("lidar", &[[1.0, 2.0, 3.0]]);
    cloud.fields[1].datatype = 8;
    assert!(matches!(cloud.xyz_layout(), Err(Tf2Error::InvalidArgument(_))));
    assert_eq!(find_coordinate(&cloud.fields, "y"), None);
    assert_eq!(find_coordinate(&cloud.fields, "x"), Some(0));
    assert_eq!(find_coordinate(&cloud.fields, "z"), Some(2));
    assert_eq!(find_coordinate(&cloud.fields, "intensity"), None);
}

#[test]
fn layout_is_read_from_the_descriptor() {
    let mut cloud = empty_cloud("lidar");
    cloud.width = 2;
    cloud.height = 1;
    cloud.point_step = 20;
    cloud.row_step = 40;
    cloud.is_bigendian = true;
    cloud.fields = vec![
        field("intensity", 0, FLOAT32),
        field("z", 4, FLOAT32),
        field("ring", 8, 4),
        field("y", 10, FLOAT32),
        field("x", 16, FLOAT32),
        field("x", 0, FLOAT32),
    ];
    cloud.data = (0u8..40).collect();
    assert_eq!(cloud.xyz_layout(), Ok(XyzLayout { x: 16, y: 10, z: 4 }));
    let points = cloud.coordinates().unwrap();
    assert_eq!(
        points,
        vec![
            PointBits { x: 0x10111213, y: 0x0a0b0c0d, z: 0x04050607 },
            PointBits { x: 0x24252627, y: 0x1e1f2021, z: 0x18191a1b },
        ]
    );
    cloud.is_bigendian = false;
    let points = cloud.coordinates().unwrap();
    assert_eq!(points[0], PointBits { x: 0x13121110, y: 0x0d0c0b0a, z: 0x07060504 });
}

#[test]
fn writing_touches_only_the_coordinates() {
    let mut cloud = empty_cloud("lidar");
    cloud.width = 1;
    cloud.height = 2;
    cloud.point_step = 16;
    cloud.row_step = 16;
    cloud.fields = vec![
        field("x", 0, FLOAT32),
        field("y", 4, FLOAT32),
        field("z", 8, FLOAT32),
        field("intensity", 12, FLOAT32),
    ];
    cloud.data = vec![0xee; 35];
    let points = vec![
        PointBits { x: 0x01020304, y: 0x05060708, z: 0x090a0b0c },
        PointBits { x: 0x11121314, y: 0x15161718, z: 0x191a1b1c },
    ];
    for big in [false, true] {
        cloud.is_bigendian = big;
        let out = cloud.with_coordinates(&points, "map", 7, 8).unwrap();
        assert_eq!(out.coordinates().unwrap(), points);
        assert_eq!(out.data.len(), 35);
        assert_eq!(&out.data[12..16], &[0xee; 4]);
        assert_eq!(&out.data[28..35], &[0xee; 7]);
        if big {
            assert_eq!(&out.data[0..4], &[1, 2, 3, 4]);
            assert_eq!(&out.data[24..28], &[0x19, 0x1a, 0x1b, 0x1c]);
        } else {
            assert_eq!(&out.data[0..4], &[4, 3, 2, 1]);
            assert_eq!(&out.data[24..28], &[0x1c, 0x1b, 0x1a, 0x19]);
        }
        assert_eq!(out.frame_id(), "map");
        assert_eq!(out.stamp(), (7, 8));
        assert_eq!((out.width, out.height, out.point_step, out.row_step), (1, 2, 16, 16));
        assert_eq!(out.is_bigendian, big);
        assert!(out.is_dense);
        assert_eq!(out.fields.len(), 4);
        assert_eq!(out.fields[3].name, "intensity");
        assert_eq!(out.fields[3].offset, 12);
    }
    // the input is as it was
    assert_eq!(cloud.data, vec![0xee; 35]);
    assert_eq!(cloud.frame_id(), "lidar");
}

#[test]
fn malformed_geometry_is_invalid_argument() {
    let good = make_xyz_cloud("lidar", &[[1.0, 2.0, 3.0], [4.0, 5.0, 6.0]]);
    assert!(good.xyz_layout().is_ok());

    let mut short = make_xyz_cloud("lidar", &[[1.0, 2.0, 3.0], [4.0, 5.0, 6.0]]);
    short.data.pop();
    assert!(matches!(short.coordinates(), Err(Tf2Error::InvalidArgument(_))));

    let mut outside = make_xyz_cloud("lidar", &[[1.0, 2.0, 3.0]]);
    outside.fields[2].offset = 9;
    assert!(matches!(outside.xyz_layout(), Err(Tf2Error::InvalidArgument(_))));

    let mut overlap = make_xyz_cloud("lidar", &[[1.0, 2.0, 3.0]]);
    overlap.fields[1].offset = 2;
    assert!(matches!(overlap.xyz_layout(), Err(Tf2Error::InvalidArgument(_))));

    let wrong_count = good.with_coordinates(&vec![PointBits { x: 0, y: 0, z: 0 }], "map", 0, 0);
    assert!(matches!(wrong_count, Err(Tf2Error::InvalidArgument(_))));

    let none = make_xyz_cloud("lidar", &[]);
    assert_eq!(none.coordinates(), Ok(Vec::new()));
}
