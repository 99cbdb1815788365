use morph_tool::animation_system::Animation;

#[test]
fn it_works() {
	let anim: Animation<u8> = Animation::new();
	assert_eq!(anim.get_num_channels(), 0);
}
