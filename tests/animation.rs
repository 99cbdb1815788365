use morph_tool::animation_system::{Animation, KeyframeError, Sample};

type Pt = (f32, f32);

fn lerp(a: Pt, b: Pt, amount: f32) -> Pt {
	(a.0 + amount * (b.0 - a.0), a.1 + amount * (b.1 - a.1))
}

fn flat(anim: &Animation<Pt>, frame: u32) -> (Vec<f32>, Vec<f32>) {
	let mut left = vec![];
	let mut right = vec![];
	for sample in anim.get_points(frame) {
		let (l, r) = match sample {
			Sample::Exact { left, right } => (left, right),
			Sample::Between { from_left, from_right, to_left, to_right, offset, span } => {
				let amount = offset as f32 / span as f32;
				(lerp(from_left, to_left, amount), lerp(from_right, to_right, amount))
			}
		};
		left.push(l.0);
		left.push(l.1);
		right.push(r.0);
		right.push(r.1);
	}
	(left, right)
}

#[test]
fn basic_animation_sanity() {
	let mut anim = Animation::new();
	let channel = anim.set_point((0.0, 0.0), (0.0, 0.0), 0, None).unwrap();
	anim.set_point((1.0, 0.0), (0.0, 0.0), 100, Some(channel)).unwrap();

	let mut pts = flat(&anim, 0);
	assert_eq!(pts.0, vec![0.0, 0.0]);
	assert_eq!(pts.1, vec![0.0, 0.0]);
	pts = flat(&anim, 50);
	assert_eq!(pts.0, vec![0.5, 0.0]);
	assert_eq!(pts.1, vec![0.0, 0.0]);
	pts = flat(&anim, 100);
	assert_eq!(pts.0, vec![1.0, 0.0]);
	assert_eq!(pts.1, vec![0.0, 0.0]);
}

#[test]
fn new_channels_take_the_next_index() {
	let mut anim: Animation<u32> = Animation::new();
	assert_eq!(anim.get_num_channels(), 0);
	assert_eq!(anim.set_point(1, 2, 5, None), Ok(0));
	assert_eq!(anim.set_point(3, 4, 5, None), Ok(1));
	assert_eq!(anim.get_num_channels(), 2);
	assert_eq!(anim.get_points(5), vec![Sample::Exact { left: 1, right: 2 }, Sample::Exact { left: 3, right: 4 }]);
}

#[test]
fn set_point_on_missing_channel_is_out_of_range() {
	let mut anim: Animation<u32> = Animation::new();
	assert_eq!(anim.set_point(1, 2, 0, Some(0)), Err(KeyframeError::OutOfRange));
	anim.set_point(1, 2, 0, None).unwrap();
	assert_eq!(anim.set_point(1, 2, 0, Some(1)), Err(KeyframeError::OutOfRange));
	assert_eq!(anim.get_num_channels(), 1);
	assert_eq!(anim.get_points(0), vec![Sample::Exact { left: 1, right: 2 }]);
}

#[test]
fn set_point_replaces_a_key_at_the_same_frame() {
	let mut anim: Animation<u32> = Animation::new();
	let c = anim.set_point(1, 2, 10, None).unwrap();
	assert_eq!(anim.set_point(7, 8, 10, Some(c)), Ok(c));
	assert_eq!(anim.set_point(7, 8, 10, Some(c)), Ok(c));
	assert_eq!(anim.get_points(10), vec![Sample::Exact { left: 7, right: 8 }]);
	// Still a single key: every frame clamps to it.
	assert_eq!(anim.get_points(0), vec![Sample::Exact { left: 7, right: 8 }]);
	assert_eq!(anim.get_points(99), vec![Sample::Exact { left: 7, right: 8 }]);
}

#[test]
fn keys_inserted_out_of_order_interpolate_in_frame_order() {
	let mut anim: Animation<u32> = Animation::new();
	let c = anim.set_point(30, 31, 30, None).unwrap();
	anim.set_point(10, 11, 10, Some(c)).unwrap();
	anim.set_point(20, 21, 20, Some(c)).unwrap();
	assert_eq!(
		anim.get_points(25),
		vec![Sample::Between { from_left: 20, from_right: 21, to_left: 30, to_right: 31, offset: 5, span: 10 }]
	);
	assert_eq!(
		anim.get_points(12),
		vec![Sample::Between { from_left: 10, from_right: 11, to_left: 20, to_right: 21, offset: 2, span: 10 }]
	);
}

#[test]
fn exact_values_at_every_keyframe() {
	let mut anim: Animation<Pt> = Animation::new();
	let c = anim.set_point((0.1, 0.2), (0.3, 0.4), 3, None).unwrap();
	anim.set_point((1.7, -2.9), (1e10, 0.1), 17, Some(c)).unwrap();
	anim.set_point((5.5, 6.6), (7.7, 8.8), 40, Some(c)).unwrap();
	assert_eq!(flat(&anim, 3), (vec![0.1, 0.2], vec![0.3, 0.4]));
	assert_eq!(flat(&anim, 17), (vec![1.7, -2.9], vec![1e10, 0.1]));
	assert_eq!(flat(&anim, 40), (vec![5.5, 6.6], vec![7.7, 8.8]));
}

#[test]
fn frames_outside_the_keys_clamp_per_channel() {
	let mut anim: Animation<u32> = Animation::new();
	let a = anim.set_point(1, 2, 10, None).unwrap();
	anim.set_point(3, 4, 20, Some(a)).unwrap();
	let b = anim.set_point(5, 6, 100, None).unwrap();
	anim.set_point(7, 8, 200, Some(b)).unwrap();
	assert_eq!(anim.get_points(0), vec![Sample::Exact { left: 1, right: 2 }, Sample::Exact { left: 5, right: 6 }]);
	assert_eq!(
		anim.get_points(50),
		vec![Sample::Exact { left: 3, right: 4 }, Sample::Exact { left: 5, right: 6 }]
	);
	assert_eq!(
		anim.get_points(u32::MAX),
		vec![Sample::Exact { left: 3, right: 4 }, Sample::Exact { left: 7, right: 8 }]
	);
}

#[test]
fn interpolation_moves_forward_between_keys() {
	let mut anim: Animation<Pt> = Animation::new();
	let c = anim.set_point((0.0, 0.0), (10.0, 10.0), 0, None).unwrap();
	anim.set_point((4.0, 8.0), (10.0, 10.0), 4, Some(c)).unwrap();
	assert_eq!(flat(&anim, 1), (vec![1.0, 2.0], vec![10.0, 10.0]));
	assert_eq!(flat(&anim, 2), (vec![2.0, 4.0], vec![10.0, 10.0]));
	assert_eq!(flat(&anim, 3), (vec![3.0, 6.0], vec![10.0, 10.0]));
}

#[test]
fn clear_point_errors_leave_the_store_unchanged() {
	let mut anim: Animation<u32> = Animation::new();
	let c = anim.set_point(1, 2, 10, None).unwrap();
	assert_eq!(anim.clear_point(Some(11), c), Err(KeyframeError::NotFound));
	assert_eq!(anim.clear_point(Some(10), 1), Err(KeyframeError::OutOfRange));
	assert_eq!(anim.clear_point(None, 1), Err(KeyframeError::OutOfRange));
	assert_eq!(anim.get_num_channels(), 1);
	assert_eq!(anim.get_points(10), vec![Sample::Exact { left: 1, right: 2 }]);
}

#[test]
fn clearing_a_key_keeps_the_rest_in_order() {
	let mut anim: Animation<u32> = Animation::new();
	let c = anim.set_point(0, 0, 0, None).unwrap();
	anim.set_point(10, 10, 10, Some(c)).unwrap();
	anim.set_point(20, 20, 20, Some(c)).unwrap();
	assert_eq!(anim.clear_point(Some(0), c), Ok(()));
	assert_eq!(anim.get_points(0), vec![Sample::Exact { left: 10, right: 10 }]);
	assert_eq!(
		anim.get_points(15),
		vec![Sample::Between { from_left: 10, from_right: 10, to_left: 20, to_right: 20, offset: 5, span: 10 }]
	);
}

#[test]
fn removing_a_channel_compacts_the_rest() {
	let mut anim: Animation<u32> = Animation::new();
	for i in 0..4u32 {
		anim.set_point(i, i, 0, None).unwrap();
	}
	assert_eq!(anim.clear_point(None, 1), Ok(()));
	assert_eq!(anim.get_num_channels(), 3);
	let values: Vec<Sample<u32>> = vec![0, 2, 3].into_iter().map(|i| Sample::Exact { left: i, right: i }).collect();
	assert_eq!(anim.get_points(0), values);
	// Clearing a channel's only key removes the channel as well.
	assert_eq!(anim.clear_point(Some(0), 0), Ok(()));
	assert_eq!(anim.get_num_channels(), 2);
	assert_eq!(anim.get_points(0), vec![Sample::Exact { left: 2, right: 2 }, Sample::Exact { left: 3, right: 3 }]);
}
