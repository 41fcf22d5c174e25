# Media Backup Manager for Immich

A desktop application that downloads original photos and videos from a
self-hosted Immich server into local folders: whole albums, the media that are
in no album grouped by year, or all media grouped by year.

The decisions of the application are a Verus-verified library (`src/`); the
window, the network requests, the threads and the settings file are ordinary
Rust around it (`app/`).

## Library (`src/`)

| module | what it holds |
|---|---|
| `text` | specifications of text (whitespace, trimming, decimal numbers) and verified helpers on strings |
| `model` | the records: albums, assets, download jobs, conflicts, choices |
| `state` | the application state and its initial value |
| `connection` | the server's base address and the API key |
| `naming` | file names, folder names and the year of an asset |
| `dedup` | one job per asset and folder, and a file name for each job (names that do not clash are proved where lower-casing keeps a job's candidate names apart, see below) |
| `years` | year folders, newest first, with counts, sizes and selection |
| `selection` | what is selected and the start of a download |
| `paging` | paged search listings: where items are, which page is next, when a listing ends |
| `transfer` | the download queue: jobs of a selection, groups, per-file decisions, size probing, retries |
| `events` | what the window shows of a running download |
| `conflicts` | files that exist already: comparing, marking and overwriting them |
| `albums` | the album list, sorted by name without regard to case, and album search |
| `apikey` | the stored form of the API key (data protection, then base64) |
| `display` | status line, messages, theme colours, size units, photo orientation and the resolution a preview shows |

Laws proved as public proof functions: `dedup::lemma_dedup_laws`,
`dedup::lemma_dedup_idempotent`, `dedup::lemma_dedup_agree`,
`transfer::lemma_queue_ignores_option`, `transfer::lemma_groups_cover_queue`,
`conflicts::lemma_conflict_commands_stay_in_list`,
`connection::lemma_base_url_stable`, `apikey::lemma_b64_injective`,
`apikey::lemma_stored_key_reads_back`, `years::lemma_bucket_counts_sum`,
`years::lemma_buckets_count_assets`, `years::lemma_rebuild_stable`, and the
order lemmas of `years`.

`dedup::lemma_named_keys_distinct` and `dedup::lemma_queue_paths_distinct`
(no two jobs of a folder get the same file name, compared in lower case)
hold under a premise, `candidates_separated`: lower-casing keeps the
candidate names of each job apart. The library does not restate the Unicode
lower-case mapping, so no caller can establish that premise; the laws say
what the naming does wherever it holds.

## Application (`app/`)

`main.rs` (window and event loop), `ui.rs` (panels and windows), `net.rs`
(requests and download threads), `storage.rs` (settings file and Windows
DPAPI), `dto.rs` (serde copies of the library's records).
