use gpui_platform::external_texture::{external_texture, ExternalTexture, ObjectFit};
use gpui_platform::geometry::{DevicePixels, Size};

fn texture(width: u32, height: u32) -> wgpu::Texture {
    let (device, _queue) = wgpu::Device::noop(&wgpu::DeviceDescriptor::default());
    device.create_texture(&wgpu::TextureDescriptor {
        label: None,
        size: wgpu::Extent3d { width, height, depth_or_array_layers: 1 },
        mip_level_count: 1,
        sample_count: 1,
        dimension: wgpu::TextureDimension::D2,
        format: wgpu::TextureFormat::Rgba8Unorm,
        usage: wgpu::TextureUsages::TEXTURE_BINDING,
        view_formats: &[],
    })
}

fn view(texture: &wgpu::Texture) -> wgpu::TextureView {
    texture.create_view(&wgpu::TextureViewDescriptor::default())
}

fn size(width: i32, height: i32) -> Size {
    Size { width: DevicePixels(width), height: DevicePixels(height) }
}

#[test]
fn an_element_has_the_size_of_its_texture() {
    let texture = texture(640, 480);
    let element = external_texture(texture.clone(), view);
    assert_eq!(element.size(), size(640, 480));
    assert_eq!(element.fit(), ObjectFit::Contain);
    assert_eq!(element.handle().texture(), &texture);
}

#[test]
fn the_fit_can_be_set() {
    let element = external_texture(texture(3, 4), view).object_fit(ObjectFit::Cover);
    assert_eq!(element.fit(), ObjectFit::Cover);
    assert_eq!(element.size(), size(3, 4));
    let handle = element.handle().clone();
    let again = element.object_fit(ObjectFit::Fill).object_fit(ObjectFit::ScaleDown);
    assert_eq!(again.fit(), ObjectFit::ScaleDown);
    assert_eq!(again.handle(), &handle);
}

#[test]
fn extents_are_read_with_a_sign() {
    let element = ExternalTexture::new(view(&texture(1, 1)), 2147483647, 4294967295);
    assert_eq!(element.size(), size(i32::MAX, -1));
    assert_eq!(element.fit(), ObjectFit::Contain);
}
