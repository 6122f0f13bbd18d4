use ecs_core::{TextureFiltering, Vec2, VertexAttributeType, WindowSettings};

#[test]
fn window_settings_builder_sets_each_field() {
    let s = WindowSettings::new();
    assert_eq!(s.title, None);
    assert_eq!(s.size, None);
    assert_eq!(s.canvas_id, None);
    let s = s
        .title("demo".to_string())
        .size(Vec2::new(640, 480))
        .canvas_id("canvas".to_string());
    assert_eq!(s.title, Some("demo".to_string()));
    assert_eq!(s.size, Some(Vec2::new(640u32, 480u32)));
    assert_eq!(s.canvas_id, Some("canvas".to_string()));
}

#[test]
fn vertex_attribute_sizes() {
    assert_eq!(VertexAttributeType::Float.size(), 4);
    assert_eq!(VertexAttributeType::Unsigned.size(), 4);
    assert_ne!(TextureFiltering::Nearest, TextureFiltering::Linear);
}
