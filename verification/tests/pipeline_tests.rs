use image_puller::boxes::build_box_index;
use image_puller::categories::{build_members, dedup_ids};
use image_puller::codec::{crops_from_bytes, label_dir};
use image_puller::crop::{plan_crops, CropCommand, CropRect, PersonLabel, Region};
use image_puller::fetch::plan_fetches;
use image_puller::labels::resolve_labels;
use image_puller::rows::BuildError;
use image_puller::urls::build_url_index;
use image_puller::window::FetchWindow;

fn row(fields: &[&str]) -> Vec<String> {
    fields.iter().map(|s| s.to_string()).collect()
}

fn region(label: PersonLabel, confidence: u32, rect: [u32; 4]) -> Region {
    Region {
        label,
        confidence,
        x_min: rect[0],
        x_max: rect[1],
        y_min: rect[2],
        y_max: rect[3],
    }
}

fn png_bytes(w: u32, h: u32) -> Vec<u8> {
    let img = image::DynamicImage::ImageRgb8(image::RgbImage::new(w, h));
    let mut buf: Vec<u8> = Vec::new();
    img.write_to(&mut std::io::Cursor::new(&mut buf), image::ImageFormat::Png)
        .unwrap();
    buf
}

#[test]
fn plan_skips_low_confidence() {
    let regions = vec![
        region(PersonLabel::Woman, 499999, [0, 1000000, 0, 1000000]),
        region(PersonLabel::Man, 200000, [0, 1000000, 0, 1000000]),
    ];
    let plan = plan_crops(&regions, 100, 100);
    assert!(plan.is_empty());
}

#[test]
fn plan_keeps_qualifying_regions_in_order() {
    let regions = vec![
        region(PersonLabel::Woman, 900000, [0, 500000, 0, 500000]),
        region(PersonLabel::Man, 200000, [0, 1000000, 0, 1000000]),
        region(PersonLabel::Man, 500000, [250000, 750000, 0, 1000000]),
    ];
    let plan = plan_crops(&regions, 8, 4);
    assert_eq!(
        plan,
        vec![
            CropCommand {
                label: PersonLabel::Woman,
                index: 0,
                rect: CropRect { x: 0, y: 0, width: 4, height: 2 },
            },
            CropCommand {
                label: PersonLabel::Man,
                index: 2,
                rect: CropRect { x: 2, y: 0, width: 4, height: 4 },
            },
        ]
    );
}

#[test]
fn plan_derives_height_from_y_extent() {
    let regions = vec![region(PersonLabel::Woman, 900000, [0, 1000000, 0, 250000])];
    let plan = plan_crops(&regions, 100, 80);
    assert_eq!(plan[0].rect, CropRect { x: 0, y: 0, width: 100, height: 20 });
}

#[test]
fn plan_truncates_to_whole_pixels() {
    let regions = vec![region(PersonLabel::Woman, 500000, [333333, 666666, 0, 1000000])];
    let plan = plan_crops(&regions, 10, 10);
    assert_eq!(plan[0].rect, CropRect { x: 3, y: 0, width: 3, height: 10 });
}

#[test]
fn window_caps_in_flight_fetches() {
    let mut w = FetchWindow::new();
    assert!(w.has_capacity());
    w.start();
    w.start();
    assert!(w.has_capacity());
    w.start();
    assert!(!w.has_capacity());
    assert_eq!(w.in_flight(), 3);
    w.retire();
    assert!(w.has_capacity());
    assert_eq!(w.in_flight(), 2);
    w.retire();
    w.retire();
    assert!(w.is_empty());
}

#[test]
fn fetch_plan_joins_ids_urls_and_boxes() {
    let urls = build_url_index(&vec![
        row(&["img1", "http://x/1"]),
        row(&["img2", "http://x/2"]),
    ])
    .unwrap();
    let boxes = build_box_index(
        &vec![
            row(&["img1", "x", "/c1", "0.9", "0.0", "0.5", "0.0", "0.5"]),
            row(&["img2", "x", "/c2", "0.2", "0.1", "0.9", "0.1", "0.9"]),
        ],
        &"/c1".to_string(),
        &"/c2".to_string(),
    )
    .unwrap();
    let ids = vec!["img1".to_string(), "img2".to_string(), "img3".to_string()];
    let plan = plan_fetches(&ids, &urls, &boxes);
    assert_eq!(plan.tasks.len(), 2);
    assert_eq!(plan.tasks[0].id, "img1");
    assert_eq!(plan.tasks[0].url, "http://x/1");
    assert_eq!(plan.tasks[0].regions.len(), 1);
    assert_eq!(plan.tasks[1].id, "img2");
    assert!(plan.missing_url.is_empty());
}

#[test]
fn fetch_plan_records_missing_urls() {
    let urls = build_url_index(&vec![row(&["img2", "http://x/2"])]).unwrap();
    let boxes = build_box_index(
        &vec![row(&["img1", "x", "/c1", "0.9", "0.0", "0.5", "0.0", "0.5"])],
        &"/c1".to_string(),
        &"/c2".to_string(),
    )
    .unwrap();
    let ids = vec!["img1".to_string(), "img2".to_string()];
    let plan = plan_fetches(&ids, &urls, &boxes);
    assert!(plan.tasks.is_empty());
    assert_eq!(plan.missing_url, vec!["img1".to_string()]);
}

#[test]
fn decode_and_crop_top_left_quadrant() {
    let bytes = png_bytes(4, 4);
    let regions = vec![region(PersonLabel::Woman, 900000, [0, 500000, 0, 500000])];
    let decoded = crops_from_bytes(&bytes, &regions).unwrap();
    assert_eq!(decoded.width, 4);
    assert_eq!(decoded.height, 4);
    assert_eq!(decoded.crops.len(), 1);
    let crop = &decoded.crops[0];
    assert_eq!(
        crop.command,
        CropCommand {
            label: PersonLabel::Woman,
            index: 0,
            rect: CropRect { x: 0, y: 0, width: 2, height: 2 },
        }
    );
    assert_eq!(image::GenericImageView::dimensions(&crop.image), (2, 2));
}

#[test]
fn low_confidence_region_yields_no_crop_output() {
    let bytes = png_bytes(4, 4);
    let regions = vec![region(PersonLabel::Man, 200000, [100000, 900000, 100000, 900000])];
    let decoded = crops_from_bytes(&bytes, &regions).unwrap();
    assert!(decoded.crops.is_empty());
}

#[test]
fn non_image_bytes_yield_no_crops() {
    let bytes = b"these are not image bytes".to_vec();
    let regions = vec![region(PersonLabel::Woman, 900000, [0, 500000, 0, 500000])];
    assert!(crops_from_bytes(&bytes, &regions).is_none());
}

#[test]
fn label_dir_names_output_directories() {
    assert_eq!(label_dir(PersonLabel::Woman), "women");
    assert_eq!(label_dir(PersonLabel::Man), "men");
}

#[test]
fn end_to_end_woman_quadrant_cropped_man_skipped() {
    let labels = vec![row(&["/c1", "Woman"]), row(&["/c2", "Man"])];
    let categories = vec![row(&["img1", "x", "/c1"]), row(&["img2", "x", "/c2"])];
    let images = vec![row(&["img1", "http://x/1"]), row(&["img2", "http://x/2"])];
    let boxes = vec![
        row(&["img1", "x", "/c1", "0.9", "0.0", "0.5", "0.0", "0.5"]),
        row(&["img2", "x", "/c2", "0.2", "0.1", "0.9", "0.1", "0.9"]),
    ];

    let (woman_code, man_code) = resolve_labels(&labels).unwrap();
    let url_index = build_url_index(&images).unwrap();
    let box_index = build_box_index(&boxes, &woman_code, &man_code).unwrap();
    let (women, men) = build_members(&categories, &woman_code, &man_code).unwrap();
    let mut ids = dedup_ids(&women);
    ids.extend(dedup_ids(&men));

    let plan = plan_fetches(&ids, &url_index, &box_index);
    assert!(plan.missing_url.is_empty());
    assert_eq!(plan.tasks.len(), 2);

    let mut written: Vec<String> = Vec::new();
    for task in &plan.tasks {
        let bytes = png_bytes(4, 4);
        let decoded = crops_from_bytes(&bytes, &task.regions).unwrap();
        for crop in &decoded.crops {
            let dir = label_dir(crop.command.label);
            written.push(format!("images/{}/{}-{}.png", dir, task.id, crop.command.index));
        }
    }
    assert_eq!(written, vec!["images/women/img1-0.png".to_string()]);
}

#[test]
fn missing_man_label_fails_before_any_fetch_work() {
    let labels = vec![row(&["/c1", "Woman"]), row(&["/c0", "Cat"])];
    assert_eq!(resolve_labels(&labels), Err(BuildError::MissingLabel));
}
