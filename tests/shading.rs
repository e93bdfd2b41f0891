use tinyrender::shading::{LIGHT_ONE, UV_ONE};
use tinyrender::{is_shadowed, shade, DepthBuffer, PassError, Renderer, ScreenTriangle, ScreenVertex, Stage, Texture, Vec2i, RGB};

fn quad(x0: i32, y0: i32, x1: i32, y1: i32, depth: i32) -> [ScreenTriangle; 2] {
    let v = |x: i32, y: i32| ScreenVertex::new(Vec2i::new(x, y), depth, 1);
    [
        ScreenTriangle::new(v(x0, y0), v(x1, y0), v(x1, y1)),
        ScreenTriangle::new(v(x0, y0), v(x1, y1), v(x0, y1)),
    ]
}

#[test]
fn shade_exact_values() {
    let tex = RGB::new(200, 100, 50);
    assert_eq!(shade(10, tex, LIGHT_ONE, false), RGB::new(210, 110, 60));
    // shadow keeps 3/10 of the light: 256 -> 76
    assert_eq!(shade(10, tex, LIGHT_ONE, true), RGB::new(69, 39, 24));
    assert_eq!(shade(0, tex, LIGHT_ONE / 2, false), RGB::new(100, 50, 25));
}

#[test]
fn shade_saturates() {
    assert_eq!(shade(100, RGB::white(), 2 * LIGHT_ONE, false), RGB::new(255, 255, 255));
    assert_eq!(shade(255, RGB::white(), u32::MAX, true), RGB::new(255, 255, 255));
    assert_eq!(shade(0, RGB::black(), u32::MAX, false), RGB::black());
}

#[test]
fn shadow_lookup() {
    let mut map = DepthBuffer::new(4, 4);
    map.set(1, 2, 500);
    assert!(is_shadowed(&map, 1, 2, 100, 5));
    assert!(is_shadowed(&map, 1, 2, 494, 5));
    assert!(!is_shadowed(&map, 1, 2, 495, 5));
    // no occluder stored
    assert!(!is_shadowed(&map, 0, 0, 100, 5));
    // outside the map: lit
    assert!(!is_shadowed(&map, -1, 2, i64::MIN, 0));
    assert!(!is_shadowed(&map, 4, 2, i64::MIN, 0));
    assert!(!is_shadowed(&map, 1, 7, i64::MIN, 0));
}

#[test]
fn texture_validation() {
    assert!(Texture::new(2, 2, 3, vec![0; 12]).is_some());
    assert!(Texture::new(2, 2, 3, vec![0; 11]).is_none());
    assert!(Texture::new(2, 2, 2, vec![0; 8]).is_none());
    assert!(Texture::new(0, 2, 3, vec![]).is_none());
    assert!(Texture::new(usize::MAX, 2, 3, vec![0; 4]).is_none());
}

#[test]
fn texture_sampling_flips_v_and_clamps() {
    // rows top first: top row red, green; bottom row blue, white; 4 bytes a texel
    let data = vec![255, 0, 0, 9, 0, 255, 0, 9, 0, 0, 255, 9, 255, 255, 255, 9];
    let t = Texture::new(2, 2, 4, data).unwrap();
    let uv = |u: f64, v: f64| ((u * UV_ONE as f64) as i32, (v * UV_ONE as f64) as i32);
    let (u, v) = uv(0.25, 0.75);
    assert_eq!(t.sample(u, v), RGB::new(255, 0, 0));
    let (u, v) = uv(0.75, 0.75);
    assert_eq!(t.sample(u, v), RGB::new(0, 255, 0));
    let (u, v) = uv(0.25, 0.25);
    assert_eq!(t.sample(u, v), RGB::new(0, 0, 255));
    let (u, v) = uv(0.75, 0.25);
    assert_eq!(t.sample(u, v), RGB::new(255, 255, 255));
    // v = 0 falls on the bottom edge, u = 1 on the right edge: clamped
    assert_eq!(t.sample(UV_ONE as i32, 0), RGB::new(255, 255, 255));
    assert_eq!(t.sample(-5000, 3 * UV_ONE as i32), RGB::new(255, 0, 0));
}

#[test]
fn passes_run_in_order() {
    let mut r = Renderer::new(8, 8, 8, 8);
    assert_eq!(r.stage, Stage::ShadowPass);
    let q = quad(0, 0, 7, 7, 10);
    assert_eq!(r.scene_triangle(&q[0]).unwrap_err(), PassError::ShadowPassPending);
    assert_eq!(r.shadowed(0, 0, 0, 0), Err(PassError::ShadowPassPending));
    assert_eq!(r.shadow_triangle(&q[0]), Ok(()));
    assert_eq!(r.finish_shadow_pass(), Ok(()));
    assert_eq!(r.stage, Stage::ScenePass);
    assert_eq!(r.shadow_triangle(&q[1]), Err(PassError::ShadowPassOver));
    assert_eq!(r.finish_shadow_pass(), Err(PassError::ShadowPassOver));
    assert!(r.scene_triangle(&q[0]).is_ok());
    assert!(r.paint(7, 7, RGB::red()));
    assert!(!r.paint(8, 0, RGB::red()));
    assert_eq!(r.image.get(7, 7), RGB::red());
}

#[test]
fn scenario_occluder_shadows_receiver() {
    // the light looks straight down the depth axis, so light space and
    // screen space share x and y; larger depth is nearer the light
    let (w, h) = (64usize, 64usize);
    let occluder = quad(16, 16, 40, 40, 1000);
    let receiver = quad(0, 0, 63, 63, 100);
    let mut r = Renderer::new(w, h, w, h);
    for t in occluder.iter().chain(receiver.iter()) {
        r.shadow_triangle(t).unwrap();
    }
    r.finish_shadow_pass().unwrap();
    let texel = RGB::new(200, 200, 200);
    let (ambient, light, bias) = (20u8, 230u32, 2i64);
    for t in receiver.iter() {
        let frags = r.scene_triangle(t).unwrap();
        for f in frags {
            let s = r.shadowed(f.x as i64, f.y as i64, f.depth as i64, bias).unwrap();
            r.paint(f.x, f.y, shade(ambient, texel, light, s));
        }
    }
    let lit = shade(ambient, texel, light, false);
    let dark = shade(ambient, texel, light, true);
    assert_eq!(lit, RGB::new(199, 199, 199));
    assert_eq!(dark, RGB::new(73, 73, 73));
    for y in 0..h {
        for x in 0..w {
            let behind = (16..=40).contains(&x) && (16..=40).contains(&y);
            assert_eq!(r.image.get(x, y), if behind { dark } else { lit }, "pixel {} {}", x, y);
        }
    }
}
