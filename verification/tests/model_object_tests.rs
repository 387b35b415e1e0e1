use baldej::model_object::ModelObject;

#[test]
fn play_keeps_looping_and_current_animation_names_it() {
    let mut object = ModelObject::new();
    assert_eq!(object.current_animation(), None);
    assert!(!object.looping());
    object.set_looping(true);
    assert!(!object.looping());
    object.play_animation("walk".to_string());
    assert_eq!(object.current_animation(), Some("walk".to_string()));
    assert!(!object.looping());
    object.set_looping(true);
    object.play_animation("run".to_string());
    assert!(object.looping());
    assert_eq!(object.current_animation(), Some("run".to_string()));
    object.stop_animation();
    assert_eq!(object.current_animation(), None);
    assert!(!object.looping());
}

#[test]
fn animation_past_its_end_loops_or_ends() {
    let mut object = ModelObject::new();
    object.play_animation("wave".to_string());
    assert!(!object.loop_animation_if_needed(true, false));
    assert_eq!(object.current_animation(), Some("wave".to_string()));
    assert!(!object.loop_animation_if_needed(true, true));
    assert_eq!(object.current_animation(), None);
    object.play_animation("spin".to_string());
    object.set_looping(true);
    assert!(object.loop_animation_if_needed(true, true));
    assert_eq!(object.current_animation(), Some("spin".to_string()));
    assert!(!object.loop_animation_if_needed(false, true));
    assert_eq!(object.current_animation(), None);
    assert!(!object.looping());
}

#[test]
fn shadows_are_cast_until_turned_off() {
    let mut object = ModelObject::new();
    assert!(object.casts_shadows());
    object.cast_shadows(false);
    assert!(!object.casts_shadows());
    object.play_animation("idle".to_string());
    assert!(!object.casts_shadows());
}
