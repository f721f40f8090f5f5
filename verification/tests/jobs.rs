use raytracer::image::{Image, ImageBlock, BLOCK_COUNT};
use raytracer::jobs::{next_job, prepare_jobs};

fn key(b: &ImageBlock) -> (u16, u16, u16, u16) {
    (b.y(), b.x(), b.width(), b.height())
}

#[test]
fn prepare_jobs_creates_image_and_all_blocks() {
    let mut image: Option<Image> = None;
    let jobs = prepare_jobs(&mut image, 40, 60);
    let img = image.as_ref().unwrap();
    assert_eq!((img.width(), img.height()), (40, 60));
    assert!(img.buffer().iter().all(|&p| p == 0));
    assert_eq!(jobs.len(), BLOCK_COUNT);
    let mut got: Vec<_> = jobs.iter().map(key).collect();
    got.sort();
    let mut want: Vec<_> = img.make_blocks().iter().map(key).collect();
    want.sort();
    assert_eq!(got, want);
}

#[test]
fn prepare_jobs_shuffles_the_grid() {
    let mut image: Option<Image> = None;
    let jobs = prepare_jobs(&mut image, 40, 40);
    let grid: Vec<_> = image.as_ref().unwrap().make_blocks().iter().map(key).collect();
    let order: Vec<_> = jobs.iter().map(key).collect();
    assert_ne!(order, grid);
}

#[test]
fn prepare_jobs_resizes_existing_image() {
    let mut image = Some(Image::new(5, 5));
    let mut whole = Image::new(100, 100).make_blocks().swap_remove(0);
    whole.set_pixel(0, 0, 1, 1, 1);
    assert!(image.as_mut().unwrap().store_block(&whole));
    assert_eq!(image.as_ref().unwrap().buffer()[0], 0x010101);
    let jobs = prepare_jobs(&mut image, 20, 40);
    let img = image.as_ref().unwrap();
    assert_eq!((img.width(), img.height()), (20, 40));
    assert_eq!(img.buffer().len(), 800);
    assert!(img.buffer().iter().all(|&p| p == 0));
    assert_eq!(jobs.len(), 400);
    assert!(jobs.iter().all(|b| b.width() == 1 && b.height() == 2));
}

#[test]
fn next_job_takes_last_when_valid() {
    let mut pool = Image::new(40, 40).make_blocks();
    pool.truncate(3);
    let last = key(&pool[2]);
    let job = next_job(true, &mut pool).unwrap();
    assert_eq!(key(&job), last);
    assert_eq!(pool.len(), 2);
}

#[test]
fn next_job_refuses_when_invalid_or_empty() {
    let mut pool = Image::new(40, 40).make_blocks();
    assert!(next_job(false, &mut pool).is_none());
    assert_eq!(pool.len(), 400);
    let mut empty: Vec<ImageBlock> = Vec::new();
    assert!(next_job(true, &mut empty).is_none());
    assert!(empty.is_empty());
}
