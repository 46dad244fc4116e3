use localdoc::cluster::cluster_summaries;
use localdoc::project::{
    centroid_samples, place_on_grid, project_samples, CentroidSample, GridPoint,
};
use localdoc::types::{
    ClusterNode, DocpackGraph, GraphMetadata, Location, Node, NodeKind, NodeMetadata,
};

fn sample(index: usize, x: i64, y: i64) -> CentroidSample {
    CentroidSample { index, x, y }
}

#[test]
fn single_point_projects_to_the_midpoint() {
    // a single cluster with centroid (0.4, 0.4), scaled by a million
    let samples = vec![sample(0, 400_000, 400_000)];
    let r = project_samples(&samples, 60, 15);
    assert_eq!(r.len(), 1);
    assert_eq!(r[0].index, 0);
    assert_eq!(r[0].x, 30);
    assert_eq!(r[0].y, 7);
}

#[test]
fn identical_coordinates_project_to_the_midpoint() {
    let samples = vec![sample(0, 400_000, 400_000), sample(1, 400_000, 400_000)];
    let r = project_samples(&samples, 60, 15);
    assert_eq!(r.len(), 2);
    for p in &r {
        assert_eq!(p.x, 30);
        assert_eq!(p.y, 7);
    }
}

#[test]
fn extremes_land_on_the_grid_corners() {
    let samples = vec![sample(0, -1_000_000, 0), sample(1, 1_000_000, 500_000)];
    let r = project_samples(&samples, 60, 15);
    assert_eq!(r[0].x, 0);
    assert_eq!(r[0].y, 0);
    assert_eq!(r[1].x, 59);
    assert_eq!(r[1].y, 14);
}

#[test]
fn one_degenerate_axis_keeps_the_other_scaled() {
    let samples = vec![sample(0, 0, 5), sample(1, 1000, 5)];
    let r = project_samples(&samples, 11, 9);
    assert_eq!(r[0].x, 0);
    assert_eq!(r[1].x, 10);
    // the y axis is degenerate: both land on the midpoint row
    assert_eq!(r[0].y, 4);
    assert_eq!(r[1].y, 4);
}

#[test]
fn empty_sample_set_projects_to_nothing() {
    let samples: Vec<CentroidSample> = vec![];
    let r = project_samples(&samples, 60, 15);
    assert!(r.is_empty());
}

#[test]
fn later_points_overwrite_earlier_cells() {
    let points = vec![
        GridPoint { index: 0, x: 2, y: 1 },
        GridPoint { index: 1, x: 0, y: 0 },
        GridPoint { index: 2, x: 2, y: 1 },
    ];
    let grid = place_on_grid(&points, 4, 3);
    assert_eq!(grid.len(), 3);
    for row in &grid {
        assert_eq!(row.len(), 4);
    }
    assert_eq!(grid[1][2], Some(2));
    assert_eq!(grid[0][0], Some(1));
    assert_eq!(grid[2][3], None);
}

#[test]
fn samples_skip_clusters_without_centroids() {
    fn cluster(id: &str, centroid: Option<Vec<i64>>) -> Node {
        Node {
            id: id.to_string(),
            kind: NodeKind::Cluster(ClusterNode {
                name: id.to_string(),
                topic: None,
                members: vec![],
                keywords: vec![],
                centroid,
            }),
            location: Location {
                file: "lib.rs".to_string(),
                start_line: 1,
                end_line: 1,
                start_col: 0,
                end_col: 0,
            },
            metadata: NodeMetadata {
                complexity: None,
                fan_in: 0,
                fan_out: 0,
                is_public_api: false,
                docstring: None,
                tags: vec![],
                source_snippet: None,
            },
        }
    }
    let g = DocpackGraph {
        nodes: vec![
            cluster("a", Some(vec![7, 9, 100])),
            cluster("b", None),
            cluster("c", Some(vec![3])),
            cluster("d", Some(vec![])),
        ],
        edges: vec![],
        metadata: GraphMetadata {
            repository_name: None,
            total_files: 0,
            total_symbols: 0,
            languages: vec![],
            created_at: String::new(),
        },
    };
    let summaries = cluster_summaries(&g);
    let samples = centroid_samples(&summaries);
    assert_eq!(samples.len(), 3);
    // only the first two components are read; short centroids fall back to zero
    assert_eq!(samples[0], CentroidSample { index: 0, x: 7, y: 9 });
    assert_eq!(samples[1], CentroidSample { index: 2, x: 3, y: 0 });
    assert_eq!(samples[2], CentroidSample { index: 3, x: 0, y: 0 });
}
