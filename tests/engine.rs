use bevy::math::cubic_splines::{CubicCardinalSpline, CubicCurve, CubicGenerator};
use bevy::math::{Quat, Vec3, VectorSpace};
use bevy::transform::components::Transform;
use bevy_color::Oklaba;
use ez_animation::animation::{InterpolatableValue, InterpolatingComponent};
use ez_animation::keyframes::{CubicSpline, Curve, CurveError};
use ez_animation::publish::{update_color_system, update_local_transform_system, MaterialStore};
use ez_animation::store::{interpolate_system, InterpolationFactor, RecordStore, StoreError};
use ez_animation::table::Table;

#[derive(Clone, Copy, Debug, PartialEq)]
struct Scalar(f32);

impl InterpolatableValue<f32> for Scalar {
    fn blend(self, other: Self, t: f32) -> Self {
        self.interpolate(&other, t)
    }

    fn interpolate(&self, other: &Self, t: f32) -> Self {
        Scalar(VectorSpace::lerp(&self.0, other.0, t))
    }
}

#[derive(Clone, Copy, Debug, PartialEq)]
struct Pose(Transform);

fn elerp(v1: Vec3, v2: Vec3, t: f32) -> Vec3 {
    Vec3::new(
        ((1. - t) * v1.x.log2() + t * v2.x.log2()).exp2(),
        ((1. - t) * v1.y.log2() + t * v2.y.log2()).exp2(),
        ((1. - t) * v1.z.log2() + t * v2.z.log2()).exp2(),
    )
}

impl InterpolatableValue<f32> for Pose {
    fn blend(self, other: Self, t: f32) -> Self {
        self.interpolate(&other, t)
    }

    fn interpolate(&self, other: &Self, t: f32) -> Self {
        Pose(Transform {
            translation: self.0.translation.lerp(other.0.translation, t),
            rotation: self.0.rotation.slerp(other.0.rotation, t),
            scale: elerp(self.0.scale, other.0.scale, t),
        })
    }
}

#[derive(Clone, Copy, Debug, PartialEq)]
struct Tint(Oklaba);

impl InterpolatableValue<f32> for Tint {
    fn blend(self, other: Self, t: f32) -> Self {
        self.interpolate(&other, t)
    }

    fn interpolate(&self, other: &Self, t: f32) -> Self {
        Tint(VectorSpace::lerp(&self.0, other.0, t))
    }
}

/// A cardinal spline over scalars, compiled by bevy.
struct Spline(CubicCurve<f32>);

impl CubicSpline<Scalar, f32> for Spline {
    fn compiled(tension: f32, keyframes: &Vec<Scalar>) -> Self {
        Self::compile(tension, keyframes)
    }

    fn position(&self, segments: usize, t: f32) -> Scalar {
        self.sample_scaled(segments, t)
    }

    fn compile(tension: f32, keyframes: &Vec<Scalar>) -> Self {
        let points: Vec<f32> = keyframes.iter().map(|k| k.0).collect();
        Spline(CubicCardinalSpline::new(tension, points).to_curve())
    }

    fn sample_scaled(&self, segments: usize, t: f32) -> Scalar {
        Scalar(self.0.position(segments as f32 * t))
    }
}

/// Never compiled: for value types that only move between two endpoints.
struct NoSpline;

impl<T: Copy> CubicSpline<T, f32> for NoSpline {
    fn compiled(_tension: f32, _keyframes: &Vec<T>) -> Self {
        NoSpline
    }

    fn position(&self, segments: usize, t: f32) -> T {
        self.sample_scaled(segments, t)
    }

    fn compile(_tension: f32, _keyframes: &Vec<T>) -> Self {
        NoSpline
    }

    fn sample_scaled(&self, _segments: usize, _t: f32) -> T {
        unreachable!()
    }
}

fn close(a: f32, b: f32) -> bool {
    (a - b).abs() < 1e-4
}

fn scalars(v: &[f32]) -> Vec<Scalar> {
    v.iter().map(|x| Scalar(*x)).collect()
}

#[test]
fn curve_of_two_keyframes_reaches_both_ends() {
    let c: Curve<Scalar, Spline> = Curve::new(0.5, scalars(&[0.0, 1.0])).unwrap();
    assert_eq!(c.segment_count(), 1);
    assert!(close(c.sample(0.0).0, 0.0));
    assert!(close(c.sample(1.0).0, 1.0));
}

#[test]
fn curve_sampling_is_deterministic() {
    let c: Curve<Scalar, Spline> = Curve::new(0.5, scalars(&[0.0, 1.0])).unwrap();
    let a = c.sample(0.37);
    let _ = c.sample(0.9);
    let b = c.sample(0.37);
    assert_eq!(a, b);
}

#[test]
fn curve_progress_is_scaled_by_segment_count() {
    let c: Curve<Scalar, Spline> = Curve::new(0.5, scalars(&[0.0, 2.0, 4.0])).unwrap();
    assert_eq!(c.segment_count(), 2);
    assert!(close(c.sample(0.5).0, 2.0));
    assert!(close(c.sample(1.0).0, 4.0));
}

#[test]
fn curve_needs_two_keyframes() {
    let one: Result<Curve<Scalar, Spline>, CurveError> = Curve::new(0.5, scalars(&[1.0]));
    assert_eq!(one.err(), Some(CurveError::TooFewKeyframes(1)));
    let none: Result<Curve<Scalar, Spline>, CurveError> = Curve::new(0.5, scalars(&[]));
    assert_eq!(none.err(), Some(CurveError::TooFewKeyframes(0)));
}

#[test]
fn keyframed_record_starts_at_first_keyframe_and_follows_curve() {
    let mut r: InterpolatingComponent<Scalar, Spline> =
        InterpolatingComponent::curved(0.5, scalars(&[3.0, 5.0])).unwrap();
    assert!(r.is_keyframed());
    assert_eq!(r.current(), Scalar(3.0));
    r.interpolate(1.0);
    assert!(close(r.current().0, 5.0));
    let bad: Result<InterpolatingComponent<Scalar, Spline>, CurveError> =
        InterpolatingComponent::curved(0.5, scalars(&[3.0]));
    assert_eq!(bad.err(), Some(CurveError::TooFewKeyframes(1)));
}

#[test]
fn two_point_record_hits_endpoints_and_extrapolates() {
    let mut r: InterpolatingComponent<Scalar, NoSpline> =
        InterpolatingComponent::new(Scalar(2.0), Scalar(6.0));
    assert!(!r.is_keyframed());
    assert_eq!(r.current(), Scalar(2.0));
    r.interpolate(0.0);
    assert_eq!(r.current(), Scalar(2.0));
    r.interpolate(1.0);
    assert_eq!(r.current(), Scalar(6.0));
    r.interpolate(0.25);
    assert_eq!(r.current(), Scalar(3.0));
    r.interpolate(1.5);
    assert_eq!(r.current(), Scalar(8.0));
}

#[test]
fn transform_blend_keeps_rotation_unit_and_scale_geometric() {
    let a = Pose(Transform::IDENTITY);
    let b = Pose(Transform {
        translation: Vec3::new(2.0, 0.0, 0.0),
        rotation: Quat::from_rotation_y(std::f32::consts::FRAC_PI_2),
        scale: Vec3::new(4.0, 4.0, 4.0),
    });
    let mut r: InterpolatingComponent<Pose, NoSpline> = InterpolatingComponent::new(a, b);
    r.interpolate(0.5);
    let m = r.current().0;
    assert!(close(m.rotation.length(), 1.0));
    assert!(close(m.scale.x, 2.0) && close(m.scale.y, 2.0) && close(m.scale.z, 2.0));
    assert!(close(m.translation.x, 1.0));
}

#[test]
fn store_refuses_a_second_record_for_an_entity() {
    let mut s: RecordStore<Scalar, NoSpline> = RecordStore::new();
    assert_eq!(s.create(7, InterpolatingComponent::new(Scalar(0.0), Scalar(1.0))), Ok(()));
    assert_eq!(
        s.create(7, InterpolatingComponent::new(Scalar(5.0), Scalar(6.0))),
        Err(StoreError::Occupied(7))
    );
    assert_eq!(s.len(), 1);
    assert_eq!(s.get(7).unwrap().current(), Scalar(0.0));
    assert!(s.get(8).is_none());
}

#[test]
fn store_reports_newly_created_entities_once() {
    let mut s: RecordStore<Scalar, NoSpline> = RecordStore::new();
    s.create(3, InterpolatingComponent::new(Scalar(0.0), Scalar(1.0))).unwrap();
    s.create(1, InterpolatingComponent::new(Scalar(0.0), Scalar(1.0))).unwrap();
    assert_eq!(s.take_added(), vec![3, 1]);
    assert_eq!(s.take_added(), Vec::<u64>::new());
    s.create(9, InterpolatingComponent::new(Scalar(0.0), Scalar(1.0))).unwrap();
    assert_eq!(s.take_added(), vec![9]);
}

#[test]
fn advance_pass_updates_every_record() {
    let mut s: RecordStore<Scalar, NoSpline> = RecordStore::new();
    s.create(1, InterpolatingComponent::new(Scalar(0.0), Scalar(4.0))).unwrap();
    s.create(2, InterpolatingComponent::new(Scalar(10.0), Scalar(20.0))).unwrap();
    interpolate_system(&mut s, &InterpolationFactor(0.5));
    assert_eq!(s.get(1).unwrap().current(), Scalar(2.0));
    assert_eq!(s.get(2).unwrap().current(), Scalar(15.0));
}

#[test]
fn table_insert_get_remove() {
    let mut t: Table<u32> = Table::new();
    t.insert(5, 50);
    t.insert(2, 20);
    t.insert(5, 55);
    assert_eq!(t.len(), 2);
    assert_eq!(t.get(5), Some(&55));
    assert_eq!(t.key_at(0), 5);
    assert_eq!(t.remove(5), Some(55));
    assert_eq!(t.remove(5), None);
    assert_eq!(t.get(2), Some(&20));
    assert_eq!(t.key_at(0), 2);
}

#[test]
fn material_handles_are_never_reused() {
    let mut m: MaterialStore<u8> = MaterialStore::new();
    let a = m.add(1);
    let b = m.add(2);
    assert_ne!(a, b);
    assert_eq!(m.remove(a), Some(1));
    assert!(m.get(a).is_none());
    let c = m.add(3);
    assert_ne!(c, a);
    assert_ne!(c, b);
    assert_eq!(m.get(c), Some(&3));
}

#[test]
fn transform_publish_copies_current_values() {
    let mut s: RecordStore<Scalar, NoSpline> = RecordStore::new();
    s.create(1, InterpolatingComponent::new(Scalar(0.0), Scalar(4.0))).unwrap();
    s.create(2, InterpolatingComponent::new(Scalar(1.0), Scalar(2.0))).unwrap();
    interpolate_system(&mut s, &InterpolationFactor(1.0));
    let mut transforms: Table<Scalar> = Table::new();
    transforms.insert(1, Scalar(-1.0));
    transforms.insert(3, Scalar(-3.0));
    update_local_transform_system(&mut transforms, &s);
    assert_eq!(transforms.get(1), Some(&Scalar(4.0)));
    assert_eq!(transforms.get(3), Some(&Scalar(-3.0)));
    assert!(transforms.get(2).is_none());
}

#[test]
fn color_publish_updates_material_in_place() {
    let mut s: RecordStore<Scalar, NoSpline> = RecordStore::new();
    s.create(1, InterpolatingComponent::new(Scalar(0.0), Scalar(1.0))).unwrap();
    let mut materials: MaterialStore<Scalar> = MaterialStore::new();
    let h = materials.add(Scalar(0.0));
    let other = materials.add(Scalar(9.0));
    let mut links: Table<u64> = Table::new();
    links.insert(1, h);
    interpolate_system(&mut s, &InterpolationFactor(0.5));
    update_color_system(&mut materials, &mut links, &s);
    assert_eq!(links.get(1), Some(&h));
    assert_eq!(materials.get(h), Some(&Scalar(0.5)));
    assert_eq!(materials.get(other), Some(&Scalar(9.0)));
}

#[test]
fn color_publish_replaces_a_removed_material() {
    let mut s: RecordStore<Scalar, NoSpline> = RecordStore::new();
    s.create(1, InterpolatingComponent::new(Scalar(0.0), Scalar(1.0))).unwrap();
    let mut materials: MaterialStore<Scalar> = MaterialStore::new();
    let h = materials.add(Scalar(0.0));
    let mut links: Table<u64> = Table::new();
    links.insert(1, h);
    materials.remove(h);
    interpolate_system(&mut s, &InterpolationFactor(1.0));
    update_color_system(&mut materials, &mut links, &s);
    let new_h = *links.get(1).unwrap();
    assert_ne!(new_h, h);
    assert!(materials.get(h).is_none());
    assert_eq!(materials.get(new_h), Some(&Scalar(1.0)));
}

#[test]
fn spawned_entity_moves_and_changes_color() {
    let entity: u64 = 42;
    let start = Pose(Transform::from_xyz(-1.0, 0.0, -3.0));
    let end = Pose(Transform::from_xyz(1.0, 0.0, -3.0));
    let start_color = Tint(Oklaba::new(0.3, 0.5, 0.0, 1.0));
    let end_color = Tint(Oklaba::new(1.0, 0.5, 1.0, 1.0));

    let mut poses: RecordStore<Pose, NoSpline> = RecordStore::new();
    let mut tints: RecordStore<Tint, NoSpline> = RecordStore::new();
    poses.create(entity, InterpolatingComponent::new(start, end)).unwrap();
    tints.create(entity, InterpolatingComponent::new(start_color, end_color)).unwrap();

    let mut transforms: Table<Pose> = Table::new();
    transforms.insert(entity, start);
    let mut materials: MaterialStore<Tint> = MaterialStore::new();
    let h = materials.add(start_color);
    let mut links: Table<u64> = Table::new();
    links.insert(entity, h);

    let factor = InterpolationFactor(0.5);
    interpolate_system(&mut poses, &factor);
    interpolate_system(&mut tints, &factor);
    update_local_transform_system(&mut transforms, &poses);
    update_color_system(&mut materials, &mut links, &tints);

    let t = transforms.get(entity).unwrap().0.translation;
    assert!(close(t.x, 0.0) && close(t.y, 0.0) && close(t.z, -3.0));
    let c = materials.get(*links.get(entity).unwrap()).unwrap().0;
    assert!(close(c.lightness, 0.65));
    assert!(close(c.a, 0.5));
    assert!(close(c.b, 0.5));
    assert!(close(c.alpha, 1.0));
}

#[test]
fn advancing_keeps_no_cursor() {
    let mut a: InterpolatingComponent<Scalar, Spline> =
        InterpolatingComponent::curved(0.5, scalars(&[0.0, 3.0, 1.0])).unwrap();
    let mut b: InterpolatingComponent<Scalar, Spline> =
        InterpolatingComponent::curved(0.5, scalars(&[0.0, 3.0, 1.0])).unwrap();
    a.interpolate(0.9);
    a.interpolate(0.3);
    b.interpolate(0.3);
    assert_eq!(a.current(), b.current());
}
