//! Stamped payloads that a resolved transform is applied to: the part of the
//! work that is done on integers. A point cloud is located and read here as
//! bit patterns, and written back and relabelled; the rotation and the
//! translation of the numbers themselves happen elsewhere.

use vstd::prelude::*;
use crate::error::{Tf2Errc, Tf2Error};
use crate::time::HasHeader;
use crate::tree::failure_of;

verus! {

/// The datatype code of a 4-byte IEEE-754 number in a point field.
pub const FLOAT32: u8 = 7;

/// The frame and the stamp of a payload.
#[derive(Clone, Debug)]
pub struct Header {
    pub stamp_sec: i32,
    pub stamp_nanosec: u32,
    pub frame_id: String,
}

/// The descriptor of one field of a point record.
#[derive(Clone, Debug)]
pub struct PointField {
    pub name: String,
    pub offset: u32,
    pub datatype: u8,
    pub count: u32,
}

/// A point cloud: `width * height` records of `point_step` bytes each, one
/// after the other in `data`, each laid out as `fields` says.
#[derive(Clone, Debug)]
pub struct PointCloud2 {
    pub header: Header,
    pub height: u32,
    pub width: u32,
    pub fields: Vec<PointField>,
    pub is_bigendian: bool,
    pub point_step: u32,
    pub row_step: u32,
    pub data: Vec<u8>,
    pub is_dense: bool,
}

/// Where the three coordinates of a point stand in its record.
#[derive(Clone, Copy, Debug, PartialEq, Eq, Structural)]
pub struct XyzLayout {
    pub x: u32,
    pub y: u32,
    pub z: u32,
}

impl HasHeader for Header {
    open spec fn header_frame(&self) -> Seq<char> {
        self.frame_id@
    }

    open spec fn header_stamp(&self) -> (i32, u32) {
        (self.stamp_sec, self.stamp_nanosec)
    }

    fn frame_id(&self) -> (r: &str) {
        self.frame_id.as_str()
    }

    fn stamp(&self) -> (r: (i32, u32)) {
        (self.stamp_sec, self.stamp_nanosec)
    }
}

impl HasHeader for PointCloud2 {
    open spec fn header_frame(&self) -> Seq<char> {
        self.header.frame_id@
    }

    open spec fn header_stamp(&self) -> (i32, u32) {
        (self.header.stamp_sec, self.header.stamp_nanosec)
    }

    fn frame_id(&self) -> (r: &str) {
        self.header.frame_id.as_str()
    }

    fn stamp(&self) -> (r: (i32, u32)) {
        (self.header.stamp_sec, self.header.stamp_nanosec)
    }
}

/// The field is a 4-byte number of the given name.
pub open spec fn is_coordinate(f: PointField, name: Seq<char>) -> bool {
    f.name@ == name && f.datatype == 7
}

/// Some field describes the coordinate of the given name.
pub open spec fn has_coordinate(fields: Seq<PointField>, name: Seq<char>) -> bool {
    exists|i: int| 0 <= i < fields.len() && is_coordinate(#[trigger] fields[i], name)
}

/// The first field that describes the coordinate of the given name.
pub open spec fn coordinate_index(fields: Seq<PointField>, name: Seq<char>) -> int {
    choose|i: int|
        0 <= i < fields.len() && is_coordinate(#[trigger] fields[i], name) && forall|j: int|
            0 <= j < i ==> !is_coordinate(#[trigger] fields[j], name)
}

/// Finds the first field that describes the coordinate of the given name.
pub fn find_coordinate(fields: &Vec<PointField>, name: &str) -> (r: Option<usize>)
    ensures
        r is Some <==> has_coordinate(fields@, name@),
        r is Some ==> r->Some_0 == coordinate_index(fields@, name@) && r->Some_0 < fields@.len()
            && is_coordinate(fields@[r->Some_0 as int], name@),
{
    let wanted = name.to_owned();
    let mut i: usize = 0;
    while i < fields.len()
        invariant
            i <= fields.len(),
            wanted@ == name@,
            forall|j: int| 0 <= j < i ==> !is_coordinate(#[trigger] fields@[j], name@),
        decreases fields.len() - i,
    {
        if fields[i].name == wanted && fields[i].datatype == FLOAT32 {
            proof {
                let k = coordinate_index(fields@, name@);
                assert(is_coordinate(fields@[i as int], name@));
                if k < i {
                    assert(!is_coordinate(fields@[k], name@));
                }
            }
            return Some(i);
        }
        i = i + 1;
    }
    None
}

/// The three 4-byte slots at these offsets do not overlap.
pub open spec fn slots_apart(a: u32, b: u32, c: u32) -> bool {
    &&& (a + 4 <= b || b + 4 <= a)
    &&& (a + 4 <= c || c + 4 <= a)
    &&& (b + 4 <= c || c + 4 <= b)
}

/// The number of points in `height` rows of `width` points.
#[verifier::opaque]
pub open spec fn area(width: u32, height: u32) -> int {
    width * height
}

/// Where record `k` begins in the data, with records of `step` bytes.
#[verifier::opaque]
pub open spec fn record_start(k: int, step: int) -> int {
    k * step
}

/// Records follow one another without gaps, from the start of the data.
pub proof fn lemma_record_start(k: int, step: int)
    requires
        0 <= k,
        0 <= step,
    ensures
        record_start(0, step) == 0,
        record_start(k + 1, step) == record_start(k, step) + step,
        0 <= record_start(k, step),
        step >= 1 ==> k <= record_start(k, step),
{
    reveal(record_start);
    assert((k + 1) * step == k * step + step) by (nonlinear_arith);
    assert(0 <= k * step) by (nonlinear_arith)
        requires
            0 <= k,
            0 <= step,
    ;
    assert(step >= 1 ==> k <= k * step) by (nonlinear_arith)
        requires
            0 <= k,
    ;
}

/// Records below `k` end before record `k` begins.
pub proof fn lemma_records_in_order(j: int, k: int, step: int)
    requires
        0 <= j < k,
        0 <= step,
    ensures
        record_start(j, step) + step <= record_start(k, step),
        0 <= record_start(j, step),
{
    reveal(record_start);
    assert(j * step + step <= k * step) by (nonlinear_arith)
        requires
            0 <= j < k,
            0 <= step,
    ;
    assert(0 <= j * step) by (nonlinear_arith)
        requires
            0 <= j,
            0 <= step,
    ;
}

impl PointCloud2 {
    /// The number of points of the cloud.
    pub open spec fn point_count(&self) -> int {
        area(self.width, self.height)
    }

    /// The coordinates of the cloud can be located: each of `x`, `y` and `z`
    /// is described by a field as a 4-byte number, the three slots lie inside
    /// a record without overlap, and the data holds every record.
    #[verifier::opaque]
    pub open spec fn locatable(&self) -> bool {
        &&& has_coordinate(self.fields@, "x"@)
        &&& has_coordinate(self.fields@, "y"@)
        &&& has_coordinate(self.fields@, "z"@)
        &&& self.spec_layout().x + 4 <= self.point_step
        &&& self.spec_layout().y + 4 <= self.point_step
        &&& self.spec_layout().z + 4 <= self.point_step
        &&& slots_apart(self.spec_layout().x, self.spec_layout().y, self.spec_layout().z)
        &&& record_start(self.point_count(), self.point_step as int) <= self.data@.len()
    }

    /// The offsets that the fields give to the three coordinates.
    pub open spec fn spec_layout(&self) -> XyzLayout {
        XyzLayout {
            x: self.fields@[coordinate_index(self.fields@, "x"@)].offset,
            y: self.fields@[coordinate_index(self.fields@, "y"@)].offset,
            z: self.fields@[coordinate_index(self.fields@, "z"@)].offset,
        }
    }

    /// Locates the three coordinates in a record, or fails with an invalid
    /// argument where the cloud is not [`PointCloud2::locatable`].
    pub fn xyz_layout(&self) -> (r: Result<XyzLayout, Tf2Error>)
        ensures
            r is Ok <==> self.locatable(),
            r is Ok ==> r->Ok_0 == self.spec_layout(),
            r is Err ==> r->Err_0@ == failure_of(Tf2Errc::InvalidArgument),
    {
        match self.locate() {
            Ok(found) => Ok(found.0),
            Err(e) => Err(e),
        }
    }

    /// Locates the three coordinates in a record and counts the points.
    fn locate(&self) -> (r: Result<(XyzLayout, usize), Tf2Error>)
        ensures
            r is Ok <==> self.locatable(),
            r is Ok ==> r->Ok_0.0 == self.spec_layout() && r->Ok_0.1 == self.point_count(),
            r is Ok ==> self.spec_layout().x + 4 <= self.point_step && self.spec_layout().y + 4
                <= self.point_step && self.spec_layout().z + 4 <= self.point_step,
            r is Ok ==> slots_apart(
                self.spec_layout().x,
                self.spec_layout().y,
                self.spec_layout().z,
            ),
            r is Ok ==> record_start(self.point_count(), self.point_step as int)
                <= self.data@.len(),
            r is Err ==> r->Err_0@ == failure_of(Tf2Errc::InvalidArgument),
    {
        reveal(PointCloud2::locatable);
        let fx = find_coordinate(&self.fields, "x");
        let fy = find_coordinate(&self.fields, "y");
        let fz = find_coordinate(&self.fields, "z");
        if fx.is_none() || fy.is_none() || fz.is_none() {
            return Err(invalid());
        }
        let x = self.fields[fx.unwrap()].offset;
        let y = self.fields[fy.unwrap()].offset;
        let z = self.fields[fz.unwrap()].offset;
        let step: u64 = self.point_step as u64;
        if x as u64 + 4 > step || y as u64 + 4 > step || z as u64 + 4 > step {
            return Err(invalid());
        }
        if !(apart(x, y) && apart(x, z) && apart(y, z)) {
            return Err(invalid());
        }
        let (count, need) = bytes_needed(self.width, self.height, self.point_step);
        let len = self.data.len();
        if need > len as u128 {
            return Err(invalid());
        }
        proof {
            lemma_record_start(count as int, step as int);
        }
        Ok((XyzLayout { x, y, z }, count as usize))
    }
}

/// The number of records in `height` rows of `width`, and the number of bytes
/// that they take at `step` bytes each.
fn bytes_needed(width: u32, height: u32, step: u32) -> (r: (u64, u128))
    ensures
        r.0 == area(width, height),
        r.1 == record_start(area(width, height), step as int),
{
    reveal(area);
    reveal(record_start);
    assert(0 <= width * height <= 0xffff_ffff * 0xffff_ffff) by (nonlinear_arith)
        requires
            0 <= width <= 0xffff_ffff,
            0 <= height <= 0xffff_ffff,
    ;
    let count: u64 = (width as u64) * (height as u64);
    assert(0 <= count * step <= 0xffff_ffff * 0xffff_ffff * 0xffff_ffff) by (nonlinear_arith)
        requires
            0 <= count <= 0xffff_ffff * 0xffff_ffff,
            0 <= step <= 0xffff_ffff,
    ;
    (count, (count as u128) * (step as u128))
}

/// Two clouds with the same descriptor and as many bytes of data are
/// locatable together, with the same layout.
pub proof fn lemma_same_descriptor(a: &PointCloud2, b: &PointCloud2)
    requires
        a.fields@ == b.fields@,
        a.width == b.width,
        a.height == b.height,
        a.point_step == b.point_step,
        a.data@.len() == b.data@.len(),
    ensures
        a.locatable() == b.locatable(),
        a.spec_layout() == b.spec_layout(),
        a.point_count() == b.point_count(),
{
    reveal(PointCloud2::locatable);
}

/// Copies the field descriptors.
fn copy_fields(fields: &Vec<PointField>) -> (out: Vec<PointField>)
    ensures
        out@ == fields@,
{
    let mut out: Vec<PointField> = Vec::new();
    let mut i: usize = 0;
    while i < fields.len()
        invariant
            i <= fields.len(),
            out@ == fields@.take(i as int),
        decreases fields.len() - i,
    {
        let f = &fields[i];
        out.push(
            PointField {
                name: f.name.clone(),
                offset: f.offset,
                datatype: f.datatype,
                count: f.count,
            },
        );
        i = i + 1;
        assert(out@ =~= fields@.take(i as int));
    }
    assert(fields@.take(fields@.len() as int) =~= fields@);
    out
}

/// Whether two 4-byte slots at these offsets do not overlap.
fn apart(a: u32, b: u32) -> (r: bool)
    ensures
        r == (a + 4 <= b || b + 4 <= a),
{
    a as u64 + 4 <= b as u64 || b as u64 + 4 <= a as u64
}

/// The failure for a payload that cannot be worked on.
fn invalid() -> (e: Tf2Error)
    ensures
        e@ == failure_of(Tf2Errc::InvalidArgument),
{
    Tf2Error::of_kind(Tf2Errc::InvalidArgument, "transform rejected".to_owned())
}

/// The coordinates of one point, each the bit pattern of a 4-byte number.
#[derive(Clone, Copy, Debug, PartialEq, Eq, Structural)]
pub struct PointBits {
    pub x: u32,
    pub y: u32,
    pub z: u32,
}

/// The 4-byte word that stands at `at` in `data`, most significant byte
/// first where `big`, least significant byte first otherwise.
pub open spec fn word_at(data: Seq<u8>, at: int, big: bool) -> u32 {
    if big {
        join(data[at + 3], data[at + 2], data[at + 1], data[at])
    } else {
        join(data[at], data[at + 1], data[at + 2], data[at + 3])
    }
}

/// The word made of four bytes, least significant first.
pub open spec fn join(b0: u8, b1: u8, b2: u8, b3: u8) -> u32 {
    (b0 as u32) | ((b1 as u32) << 8) | ((b2 as u32) << 16) | ((b3 as u32) << 24)
}

/// The byte of a word at the given place, 0 for the least significant.
pub open spec fn byte_of(w: u32, place: u32) -> u8 {
    ((w >> (8 * place)) & 0xff) as u8
}

/// A word is the join of its four bytes.
pub proof fn lemma_join_bytes(w: u32)
    ensures
        join(byte_of(w, 0), byte_of(w, 1), byte_of(w, 2), byte_of(w, 3)) == w,
{
    assert((((w >> 0u32) & 0xff) as u8 as u32) | ((((w >> 8u32) & 0xff) as u8 as u32) << 8u32) | ((((w
        >> 16u32) & 0xff) as u8 as u32) << 16u32) | ((((w >> 24u32) & 0xff) as u8 as u32) << 24u32)
        == w) by (bit_vector);
    assert(8 * 0u32 == 0u32 && 8 * 1u32 == 8u32 && 8 * 2u32 == 16u32 && 8 * 3u32 == 24u32);
}

/// Reads the word at `at`.
fn read_word(data: &Vec<u8>, at: usize, big: bool) -> (w: u32)
    requires
        at + 4 <= data@.len(),
    ensures
        w == word_at(data@, at as int, big),
{
    let len = data.len();
    let b0 = data[at];
    let b1 = data[at + 1];
    let b2 = data[at + 2];
    let b3 = data[at + 3];
    if big {
        (b3 as u32) | ((b2 as u32) << 8) | ((b1 as u32) << 16) | ((b0 as u32) << 24)
    } else {
        (b0 as u32) | ((b1 as u32) << 8) | ((b2 as u32) << 16) | ((b3 as u32) << 24)
    }
}

/// Writes the word `w` at `at`; no other byte changes.
fn put_word(data: &mut Vec<u8>, at: usize, w: u32, big: bool)
    requires
        at + 4 <= old(data)@.len(),
    ensures
        final(data)@.len() == old(data)@.len(),
        word_at(final(data)@, at as int, big) == w,
        forall|b: int|
            0 <= b < old(data)@.len() && !(at <= b < at + 4) ==> final(data)@[b] == old(data)@[b],
{
    let len = data.len();
    let b0 = (w & 0xff) as u8;
    let b1 = ((w >> 8) & 0xff) as u8;
    let b2 = ((w >> 16) & 0xff) as u8;
    let b3 = ((w >> 24) & 0xff) as u8;
    proof {
        assert(w & 0xff <= 0xff && (w >> 8) & 0xff <= 0xff && (w >> 16) & 0xff <= 0xff && (w >> 24)
            & 0xff <= 0xff) by (bit_vector);
        lemma_join_bytes(w);
        assert(w >> 0u32 == w) by (bit_vector);
        assert(8 * 0u32 == 0u32 && 8 * 1u32 == 8u32 && 8 * 2u32 == 16u32 && 8 * 3u32 == 24u32);
        assert(b0 == byte_of(w, 0) && b1 == byte_of(w, 1) && b2 == byte_of(w, 2) && b3 == byte_of(
            w,
            3,
        ));
    }
    if big {
        data.set(at, b3);
        data.set(at + 1, b2);
        data.set(at + 2, b1);
        data.set(at + 3, b0);
    } else {
        data.set(at, b0);
        data.set(at + 1, b1);
        data.set(at + 2, b2);
        data.set(at + 3, b3);
    }
}

/// The byte at `b` belongs to one of the coordinates of point `k`.
pub open spec fn in_point(layout: XyzLayout, step: int, k: int, b: int) -> bool {
    ||| record_start(k, step) + layout.x <= b < record_start(k, step) + layout.x + 4
    ||| record_start(k, step) + layout.y <= b < record_start(k, step) + layout.y + 4
    ||| record_start(k, step) + layout.z <= b < record_start(k, step) + layout.z + 4
}

/// The coordinates of point `k` as they stand in `data`.
pub open spec fn point_in(data: Seq<u8>, layout: XyzLayout, step: int, big: bool, k: int) -> PointBits {
    PointBits {
        x: word_at(data, record_start(k, step) + layout.x, big),
        y: word_at(data, record_start(k, step) + layout.y, big),
        z: word_at(data, record_start(k, step) + layout.z, big),
    }
}

impl PointCloud2 {
    /// The coordinates of every point of a locatable cloud, in order.
    pub open spec fn spec_points(&self) -> Seq<PointBits> {
        Seq::new(
            self.point_count() as nat,
            |k: int|
                point_in(
                    self.data@,
                    self.spec_layout(),
                    self.point_step as int,
                    self.is_bigendian,
                    k,
                ),
        )
    }

    /// Reads the coordinates of every point, in order, or fails with an
    /// invalid argument where the cloud is not [`PointCloud2::locatable`].
    pub fn coordinates(&self) -> (r: Result<Vec<PointBits>, Tf2Error>)
        ensures
            r is Ok <==> self.locatable(),
            r is Ok ==> r->Ok_0@ == self.spec_points(),
            r is Err ==> r->Err_0@ == failure_of(Tf2Errc::InvalidArgument),
    {
        let (layout, n) = match self.locate() {
            Ok(found) => found,
            Err(e) => {
                return Err(e);
            },
        };
        let step: usize = self.point_step as usize;
        let big = self.is_bigendian;
        let len = self.data.len();
        let mut out: Vec<PointBits> = Vec::new();
        let mut base: usize = 0;
        let mut k: usize = 0;
        proof {
            lemma_record_start(0, step as int);
        }
        while k < n
            invariant
                k <= n,
                len == self.data@.len(),
                record_start(n as int, step as int) <= len,
                layout.x + 4 <= step,
                layout.y + 4 <= step,
                layout.z + 4 <= step,
                base == record_start(k as int, step as int),
                out@.len() == k,
                forall|j: int|
                    0 <= j < k ==> (#[trigger] out@[j]) == point_in(
                        self.data@,
                        layout,
                        step as int,
                        big,
                        j,
                    ),
            decreases n - k,
        {
            proof {
                lemma_records_in_order(k as int, n as int, step as int);
                lemma_record_start(k as int, step as int);
            }
            let x = read_word(&self.data, base + layout.x as usize, big);
            let y = read_word(&self.data, base + layout.y as usize, big);
            let z = read_word(&self.data, base + layout.z as usize, big);
            out.push(PointBits { x, y, z });
            k = k + 1;
            base = base + step;
        }
        assert(out@ =~= self.spec_points());
        Ok(out)
    }

    /// The cloud with the coordinates of its points replaced by `points`,
    /// relabelled to the frame and the stamp given; or the failure with an
    /// invalid argument where the cloud is not [`PointCloud2::locatable`] or
    /// `points` has not one entry for each point. Every byte that belongs to
    /// no coordinate stays as it is, and so does the rest of the descriptor.
    pub fn with_coordinates(
        &self,
        points: &Vec<PointBits>,
        frame: &str,
        stamp_sec: i32,
        stamp_nanosec: u32,
    ) -> (r: Result<PointCloud2, Tf2Error>)
        ensures
            r is Ok <==> self.locatable() && points@.len() == self.point_count(),
            r is Err ==> r->Err_0@ == failure_of(Tf2Errc::InvalidArgument),
            r is Ok ==> ({
                let out = r->Ok_0;
                &&& out.header.frame_id@ == frame@
                &&& out.header.stamp_sec == stamp_sec
                &&& out.header.stamp_nanosec == stamp_nanosec
                &&& out.height == self.height
                &&& out.width == self.width
                &&& out.fields@ == self.fields@
                &&& out.is_bigendian == self.is_bigendian
                &&& out.point_step == self.point_step
                &&& out.row_step == self.row_step
                &&& out.is_dense == self.is_dense
                &&& out.data@.len() == self.data@.len()
                &&& out.locatable()
                &&& out.spec_points() == points@
                &&& forall|b: int|
                    0 <= b < self.data@.len() && (forall|k: int|
                        0 <= k < self.point_count() ==> !#[trigger] in_point(
                            self.spec_layout(),
                            self.point_step as int,
                            k,
                            b,
                        )) ==> out.data@[b] == self.data@[b]
            }),
    {
        let (layout, n) = match self.locate() {
            Ok(found) => found,
            Err(e) => {
                return Err(e);
            },
        };
        if points.len() != n {
            return Err(invalid());
        }
        let step: usize = self.point_step as usize;
        let big = self.is_bigendian;
        let mut data = self.data.clone();
        assert(data@ == self.data@);
        let len = data.len();
        let mut k: usize = 0;
        let mut base: usize = 0;
        proof {
            lemma_record_start(0, step as int);
        }
        while k < n
            invariant
                n == points@.len(),
                k <= n,
                len == self.data@.len(),
                data@.len() == len,
                record_start(n as int, step as int) <= len,
                layout.x + 4 <= step,
                layout.y + 4 <= step,
                layout.z + 4 <= step,
                slots_apart(layout.x, layout.y, layout.z),
                base == record_start(k as int, step as int),
                forall|j: int|
                    0 <= j < k ==> (#[trigger] points@[j]) == point_in(
                        data@,
                        layout,
                        step as int,
                        big,
                        j,
                    ),
                forall|b: int|
                    0 <= b < len && (forall|j: int|
                        0 <= j < k ==> !#[trigger] in_point(layout, step as int, j, b))
                        ==> data@[b] == self.data@[b],
            decreases n - k,
        {
            proof {
                lemma_records_in_order(k as int, n as int, step as int);
                lemma_record_start(k as int, step as int);
            }
            let ghost before = data@;
            let p = points[k];
            put_word(&mut data, base + layout.x as usize, p.x, big);
            let ghost with_x = data@;
            put_word(&mut data, base + layout.y as usize, p.y, big);
            let ghost with_y = data@;
            put_word(&mut data, base + layout.z as usize, p.z, big);
            proof {
                assert(word_at(data@, base + layout.x, big) == word_at(with_x, base + layout.x, big));
                assert(word_at(data@, base + layout.y, big) == word_at(with_y, base + layout.y, big));
                assert forall|b: int| 0 <= b < len && !in_point(
                    layout,
                    step as int,
                    k as int,
                    b,
                ) implies data@[b] == before[b] by {}
                assert forall|j: int| 0 <= j < k + 1 implies (#[trigger] points@[j]) == point_in(
                    data@,
                    layout,
                    step as int,
                    big,
                    j,
                ) by {
                    if j < k {
                        lemma_records_in_order(j, k as int, step as int);
                        assert(points@[j] == point_in(before, layout, step as int, big, j));
                        let s = record_start(j, step as int);
                        assert(forall|b: int| s <= b < s + step ==> data@[b] == before[b]);
                    }
                }
                assert forall|b: int|
                    0 <= b < len && (forall|j: int|
                        0 <= j < k + 1 ==> !#[trigger] in_point(
                            layout,
                            step as int,
                            j,
                            b,
                        )) implies data@[b] == self.data@[b] by {
                    assert(!in_point(layout, step as int, k as int, b));
                    assert(forall|j: int|
                        0 <= j < k ==> !#[trigger] in_point(layout, step as int, j, b));
                }
            }
            k = k + 1;
            base = base + step;
        }
        assert(self.locatable());
        let out = PointCloud2 {
            header: Header { stamp_sec, stamp_nanosec, frame_id: frame.to_owned() },
            height: self.height,
            width: self.width,
            fields: copy_fields(&self.fields),
            is_bigendian: self.is_bigendian,
            point_step: self.point_step,
            row_step: self.row_step,
            data,
            is_dense: self.is_dense,
        };
        proof {
            lemma_same_descriptor(self, &out);
            assert(out.spec_points() =~= points@);
        }
        Ok(out)
    }
}

} // verus!
