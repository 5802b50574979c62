use psitool::config::{
    pick_weighted_index, random_pool, Config, QueryConfig, TargetPool, WikiConfig,
};
use psitool::error::PsiError;

fn pool(path: &str, labels: &[&str]) -> TargetPool {
    TargetPool {
        path: path.to_string(),
        labels: labels.iter().map(|l| l.to_string()).collect(),
        wiki: None,
    }
}

fn two_pool_config() -> Config {
    Config::new(vec![
        ("nature".to_string(), pool("~/pools/nature", &["outdoor"])),
        ("cities".to_string(), pool("~/pools/cities", &["urban", "manmade"])),
    ])
}

#[test]
fn config_lookup() {
    let cfg = two_pool_config();
    assert!(cfg.has_pool(&"nature".to_string()));
    assert!(!cfg.has_pool(&"oceans".to_string()));
    assert_eq!(cfg.get_pool(&"cities".to_string()).unwrap().path, "~/pools/cities");
    assert!(cfg.get_pool(&"oceans".to_string()).is_none());
    assert_eq!(cfg.list_pools(), vec!["nature".to_string(), "cities".to_string()]);
}

#[test]
fn iter_queries_limit_chain() {
    let tpool = TargetPool {
        path: "~/pools/nature".to_string(),
        labels: vec![],
        wiki: Some(WikiConfig {
            default_limit: Some(25),
            queries: vec![
                QueryConfig {
                    query: "waterfall".to_string(),
                    limit: Some(7),
                    frontloading: Some(vec!["water".to_string()]),
                },
                QueryConfig { query: "canyon".to_string(), limit: None, frontloading: None },
            ],
        }),
    };
    // A query's own limit wins.
    let qs = tpool.iter_queries(Some(50));
    assert_eq!(qs.len(), 2);
    assert_eq!(qs[0].query, "waterfall");
    assert_eq!(qs[0].limit, 7);
    assert_eq!(qs[0].frontloading, vec!["water".to_string()]);
    // Then the caller's override.
    assert_eq!(qs[1].limit, 50);
    assert!(qs[1].frontloading.is_empty());
    // Then the pool default.
    let qs = tpool.iter_queries(None);
    assert_eq!(qs[1].limit, 25);
    // Then 100.
    let bare = TargetPool {
        path: "~/p".to_string(),
        labels: vec![],
        wiki: Some(WikiConfig {
            default_limit: None,
            queries: vec![QueryConfig {
                query: "q".to_string(),
                limit: None,
                frontloading: None,
            }],
        }),
    };
    assert_eq!(bare.iter_queries(None)[0].limit, 100);
    // No acquisition settings: no queries.
    assert!(pool("~/p", &[]).iter_queries(Some(3)).is_empty());
}

#[test]
fn config_iter_queries_by_name() {
    let mut cfg_pool = pool("~/pools/nature", &[]);
    cfg_pool.wiki = Some(WikiConfig {
        default_limit: None,
        queries: vec![QueryConfig {
            query: "glacier".to_string(),
            limit: None,
            frontloading: None,
        }],
    });
    let cfg = Config::new(vec![("nature".to_string(), cfg_pool)]);
    let qs = cfg.iter_queries(&"nature".to_string(), Some(9));
    assert_eq!(qs.len(), 1);
    assert_eq!(qs[0].query, "glacier");
    assert_eq!(qs[0].limit, 9);
    assert!(cfg.iter_queries(&"oceans".to_string(), None).is_empty());
}

#[test]
fn select_pools_by_name_label_and_default() {
    let cfg = two_pool_config();
    // Nothing asked for: every pool.
    let all = cfg.select_pools(&vec![], &None, &None).unwrap();
    assert_eq!(all, vec![0, 1]);
    // By name.
    let named = cfg.select_pools(&vec!["cities".to_string()], &None, &None).unwrap();
    assert_eq!(named, vec![1]);
    // By include label.
    let incl = cfg
        .select_pools(&vec![], &Some("outdoor".to_string()), &None)
        .unwrap();
    assert_eq!(incl, vec![0]);
    // An exclude label removes its pools; the rest are not implicitly
    // included unless requested or labeled.
    let excl = cfg
        .select_pools(&vec!["nature".to_string()], &None, &Some("urban".to_string()))
        .unwrap();
    assert_eq!(excl, vec![0]);
    // The exclude label beats a name request.
    let both = cfg
        .select_pools(&vec!["cities".to_string()], &None, &Some("urban".to_string()))
        .unwrap();
    assert!(both.is_empty());
    // A requested name that is not configured fails.
    let missing = cfg.select_pools(&vec!["oceans".to_string()], &None, &None);
    assert_eq!(missing.unwrap_err(), PsiError::NotFoundError);
}

#[test]
fn weighted_index_lands_by_cumulative_weight() {
    let ws = vec![0usize, 10];
    for draw in 0..10u128 {
        assert_eq!(pick_weighted_index(&ws, draw), 1);
    }
    let ws = vec![2usize, 3, 0, 5];
    assert_eq!(pick_weighted_index(&ws, 0), 0);
    assert_eq!(pick_weighted_index(&ws, 1), 0);
    assert_eq!(pick_weighted_index(&ws, 2), 1);
    assert_eq!(pick_weighted_index(&ws, 4), 1);
    assert_eq!(pick_weighted_index(&ws, 5), 3);
    assert_eq!(pick_weighted_index(&ws, 9), 3);
}

#[test]
fn empty_pools_never_selected() {
    // Eligible counts {A: 0, B: 10}: the draw always lands in B.
    for _ in 0..50 {
        let idx = random_pool(&vec![0usize, 10]).unwrap();
        assert_eq!(idx, 1);
    }
    // All pools empty: the draw fails.
    assert_eq!(random_pool(&vec![0usize, 0]).unwrap_err(), PsiError::EmptyPoolError);
    assert_eq!(random_pool(&Vec::<usize>::new()).unwrap_err(), PsiError::EmptyPoolError);
}

#[test]
fn random_pool_hits_positive_weight() {
    for _ in 0..50 {
        let idx = random_pool(&vec![3usize, 0, 2]).unwrap();
        assert!(idx == 0 || idx == 2);
    }
}
