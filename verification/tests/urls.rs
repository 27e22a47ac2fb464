use timelapsifier::urls::{Base, ContentUrl};

#[test]
fn base_urls_hang_under_their_section() {
    assert_eq!(ContentUrl::new(Base::Home).url(), "/");
    assert_eq!(ContentUrl::new(Base::Blog).url(), "/blog");
    assert_eq!(ContentUrl::new(Base::Blender).url(), "/blender");
    assert_eq!(ContentUrl::new(Base::Training).url(), "/training");
}

#[test]
fn diving_appends_sub_paths() {
    let mut u = ContentUrl::new(Base::Blog);
    u.dive("tracing");
    assert_eq!(u.url(), "/blog/tracing");
    u.dive("overview");
    assert_eq!(u.url(), "/blog/tracing/overview");
}

#[test]
fn suburls_drop_a_leading_slash() {
    let u = ContentUrl::new(Base::Blog);
    assert_eq!(u.suburl("post"), "/blog/post");
    assert_eq!(u.suburl("/post"), "/blog/post");
}

#[test]
fn static_paths_carry_the_section_name() {
    let u = ContentUrl::new(Base::Blender);
    assert_eq!(u.image("goal.webp"), "/static/img/blender/goal.webp");
    assert_eq!(u.css("blender.css"), "/static/css/blender/blender.css");
    assert_eq!(ContentUrl::base_css(), "/static/css/shared/shared.css");
}
