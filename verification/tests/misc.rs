use ggg::camera::controller::ControlType;
use ggg::camera::projection::{OrthographicSettings, ProjectionType as ProjectionKind};
use ggg::camera::{Fly, MovementType, Orthographic, ProjectionType};
use ggg::cursor::{Icon, OptionIcon};
use ggg::input::{KeyboardButton, KeyboardModifier, MouseButton};
use ggg::list::{Cons, Fold, Folder, FolderFn, Nil, Prepend, ToRef};
use ggg::reset::{Reset, ResetFn};
use ggg::texture_def::{AddTextureError, ArrayTextureDefBuilder, TextureIdx};

struct Sum;

impl FolderFn<u64, u8> for Sum {
    fn fold(&mut self, accumulator: u64, value: u8) -> u64 {
        accumulator + value as u64
    }
}

impl FolderFn<u64, u32> for Sum {
    fn fold(&mut self, accumulator: u64, value: u32) -> u64 {
        accumulator * 10 + value as u64
    }
}

#[test]
fn lists_prepend_and_fold_front_to_back() {
    let list = Nil.prepend(3u32).prepend(2u8).prepend(1u32);
    assert_eq!(list, Cons::new(1u32, Cons::new(2u8, Cons::new(3u32, Nil))));
    let folded = list.fold(0u64, Folder(Sum));
    // (0 * 10 + 1 + 2) * 10 + 3
    assert_eq!(folded, 33);
    assert_eq!(Nil.fold(7u64, Folder(Sum)), 7);
    let refs = list.to_ref();
    assert_eq!(refs, Cons::new(&1u32, Cons::new(&2u8, Cons::new(&3u32, Nil))));
}

#[test]
fn lists_fold_with_a_closure_front_to_back() {
    let list = Cons::new(1u64, Cons::new(2u64, Cons::new(3u64, Nil)));
    assert_eq!(list.fold(0u64, |a: u64, x: u64| a * 10 + x), 123);
    assert_eq!(Nil.fold(7u64, |a: u64, x: u64| a + x), 7);
    let mut calls = 0u32;
    let counted = Cons::new(5u64, Cons::new(6u64, Nil)).fold(0u64, |a: u64, x: u64| {
        calls += 1;
        a + x
    });
    assert_eq!((counted, calls), (11, 2));
}

#[test]
fn resets_put_values_back() {
    let mut a = 5u32;
    let mut b = true;
    {
        let resets = Nil.prepend(Reset::new(&mut a, 1u32)).prepend(Reset::new(&mut b, false));
        resets.fold((), Folder(ResetFn));
    }
    assert_eq!(a, 1);
    assert!(!b);
    let mut c = 9i64;
    Reset::new(&mut c, -1).reset();
    assert_eq!(c, -1);
}

#[test]
fn cursor_icons_convert() {
    let icon = Icon::new(cursor_icon::CursorIcon::Pointer);
    assert_eq!(icon.into_cursor_icon(), cursor_icon::CursorIcon::Pointer);
    assert_eq!(*icon, cursor_icon::CursorIcon::Pointer);
    assert_eq!(Icon::from(cursor_icon::CursorIcon::Wait), Icon(cursor_icon::CursorIcon::Wait));
    assert_eq!(cursor_icon::CursorIcon::from(icon), cursor_icon::CursorIcon::Pointer);
    assert_eq!(Icon::default(), Icon(cursor_icon::CursorIcon::Default));
    assert_eq!(OptionIcon::default(), OptionIcon(None));
    assert_eq!(OptionIcon::from_none().into_option(), None);
    assert_eq!(OptionIcon::from_cursor_icon(cursor_icon::CursorIcon::Text).0, Some(cursor_icon::CursorIcon::Text));
    assert_eq!(OptionIcon::new(None), OptionIcon(None));
    assert_eq!(OptionIcon::from(Some(icon)), OptionIcon(Some(cursor_icon::CursorIcon::Pointer)));
    assert_eq!(OptionIcon::from(None::<Icon>), OptionIcon(None));
    assert_eq!(OptionIcon::from(icon).as_ref(), Some(&cursor_icon::CursorIcon::Pointer));
    assert_eq!(OptionIcon::from(cursor_icon::CursorIcon::Move).0, Some(cursor_icon::CursorIcon::Move));
    assert_eq!(OptionIcon::from(Some(cursor_icon::CursorIcon::Move)).0, Some(cursor_icon::CursorIcon::Move));
    let back: Option<Icon> = OptionIcon::from(icon).into();
    assert_eq!(back, Some(icon));
    let raw: Option<cursor_icon::CursorIcon> = OptionIcon::from_none().into();
    assert_eq!(raw, None);
}

#[test]
fn texture_arrays_refuse_oversized_textures() {
    let mut builder = ArrayTextureDefBuilder::new(4, 4);
    let small = image::DynamicImage::new_rgba8(4, 2);
    assert_eq!(builder.add_texture(small), Ok(TextureIdx::new(0)));
    let wide = image::DynamicImage::new_rgba8(5, 1);
    assert_eq!(
        builder.add_texture(wide),
        Err(AddTextureError::IncorrectDimensionsFail { width: 5, height: 1, max_width: 4, max_height: 4 })
    );
    let high = image::DynamicImage::new_rgba8(1, 9);
    assert!(matches!(builder.add_texture(high), Err(AddTextureError::IncorrectDimensionsFail { height: 9, .. })));
    let next = image::DynamicImage::new_rgba8(1, 1);
    assert_eq!(builder.add_texture(next).map(|i| i.into_idx()), Ok(1));
    assert_eq!(builder.texture_count(), 2);
    assert_eq!(TextureIdx::default().into_idx(), 0);
}

#[test]
fn enums_and_defaults() {
    assert_eq!(ProjectionKind::default(), ProjectionKind::Perspective);
    assert_eq!(ControlType::default(), ControlType::Arcball);
    assert_eq!(OrthographicSettings::default(), OrthographicSettings {});
    assert!(MovementType::Arcball < MovementType::Fly);
    assert!(ProjectionType::Perspective < ProjectionType::Orthographic);
    let _ = (Fly::default(), Orthographic::default());
    assert!(MouseButton::Left < MouseButton::Other(0));
    assert_ne!(KeyboardModifier::Shift, KeyboardModifier::Meta);
    assert!(KeyboardButton::Backquote < KeyboardButton::F35);
}
